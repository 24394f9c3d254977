//! The evaluator: a loop over steps, so that tail positions use no stack.

use vstd::prelude::*;
use crate::env::{new_env, Interp, World};
use crate::eval::builtins::call_builtin;
use crate::eval::model::{
    attach, attach_all, bind_all, destructure_items, destructure_spec, eval_entries, eval_seq,
    eval_spec, quasi_items, quasi_spec, scan_catch, step_call, step_cons, step_def, step_do,
    step_err, step_if, step_lambda, step_let, step_limit, step_list, step_quasiquote,
    step_quote, step_spec, step_try, Many, Outcome, StepV, Stepped,
};
use crate::types::{
    clone_range, clone_values, entry_vals, error_val, one, result_val, vals, Env, Val, Value,
};

pub mod builtins;
pub mod model;
pub mod shape;
pub mod valid;

verus! {

broadcast use crate::types::group_value_models;

/// How one step leaves an expression.
pub enum Step {
    /// Evaluated: this is its value or its error.
    Done(Result<Value, Value>),
    /// Its value is that of `syn` in `env`.
    Tail { syn: Value, env: Env },
    /// Its value is the list that `syn` evaluates to in `env`, with `head`
    /// in front.
    Cons { head: Value, syn: Value, env: Env },
}

impl View for Step {
    type V = StepV;

    open spec fn view(&self) -> StepV {
        match self {
            Step::Done(r) => StepV::Done(result_val(*r)),
            Step::Tail { syn, env } => StepV::Tail { syn: syn@, env: *env as nat },
            Step::Cons { head, syn, env } => StepV::Cons {
                head: head@,
                syn: syn@,
                env: *env as nat,
            },
        }
    }
}

/// The model of a result that holds several values.
pub open spec fn many_val(r: Result<Vec<Value>, Value>) -> Result<Seq<Val>, Val> {
    match r {
        Ok(vs) => Ok(vals(vs@)),
        Err(e) => Err(e@),
    }
}

/// The error of an evaluation that ran out of steps.
pub fn out_of_steps() -> (res: Value)
    ensures
        res@ == step_limit(),
{
    let context: Vec<Value> = Vec::new();
    assert(vals(context@) =~= seq![]);
    Value::error("StepLimit", context)
}

/// With heads to put in front, a list becomes a longer list, another value
/// the error `NotAList`, and an error stays.
pub proof fn lemma_attach_all(heads: Seq<Val>, o: Outcome)
    ensures
        attach_all(heads, o) == (Outcome {
            result: if heads.len() == 0 {
                o.result
            } else {
                match o.result {
                    Ok(Val::List(l)) => Ok(Val::List(heads + l)),
                    Ok(other) => Err(error_val("NotAList"@, seq![other])),
                    Err(e) => Err(e),
                }
            },
            world: o.world,
        }),
    decreases heads.len(),
{
    if heads.len() > 0 {
        let inner = attach(heads.last(), o);
        lemma_attach_all(heads.drop_last(), inner);
        match o.result {
            Ok(Val::List(l)) => {
                assert(heads.drop_last() + (seq![heads.last()] + l) =~= heads + l);
                if heads.len() == 1 {
                    assert(seq![heads.last()] + l =~= heads + l);
                }
            },
            _ => {},
        }
    }
}

/// Puts the collected heads in front of what the last tail position gave.
fn finish(prefix: Vec<Value>, r: Result<Value, Value>) -> (res: Result<Value, Value>)
    ensures
        forall|w: World|
            #![trigger attach_all(vals(prefix@), Outcome { result: result_val(r), world: w })]
            attach_all(vals(prefix@), Outcome { result: result_val(r), world: w }) == (Outcome {
                result: result_val(res),
                world: w,
            }),
{
    proof {
        assert forall|w: World|
            #![trigger attach_all(vals(prefix@), Outcome { result: result_val(r), world: w })]
            attach_all(vals(prefix@), Outcome { result: result_val(r), world: w }).world == w
            && attach_all(vals(prefix@), Outcome { result: result_val(r), world: w }).result
            == attach_all(
                vals(prefix@),
                Outcome { result: result_val(r), world: arbitrary() },
            ).result by {
            lemma_attach_all(vals(prefix@), Outcome { result: result_val(r), world: w });
            lemma_attach_all(
                vals(prefix@),
                Outcome { result: result_val(r), world: arbitrary() },
            );
        }
        lemma_attach_all(vals(prefix@), Outcome { result: result_val(r), world: arbitrary() });
    }
    if prefix.len() == 0 {
        return r;
    }
    match r {
        Ok(Value::List(l)) => {
            let mut all = prefix;
            let mut l = l;
            let ghost tail = vals(l@);
            all.append(&mut l);
            assert(vals(all@) =~= vals(prefix@) + tail);
            Ok(Value::List(all))
        },
        Ok(other) => Err(Value::error("NotAList", one(other))),
        Err(e) => Err(e),
    }
}

/// syntax => value
///
/// Evaluates `syn` in the frame `env` within `fuel` steps. An evaluation
/// that would need more gives the error `StepLimit`.
pub fn eval(syn: Value, env: Env, interp: &mut Interp, fuel: u64) -> (res: Result<Value, Value>)
    ensures
        (Outcome { result: result_val(res), world: final(interp)@ }) == eval_spec(
            syn@,
            env as nat,
            old(interp)@,
            fuel as nat,
        ),
    decreases fuel, 0nat, Val::Int(0), 1nat,
{
    eval_ref(&syn, env, interp, fuel)
}

/// The expression that the loop of `eval_ref` is at.
pub open spec fn current(owned: Option<Value>, first: &Value) -> Val {
    match owned {
        Some(v) => v@,
        None => first@,
    }
}

/// As `eval`, for an expression that the caller keeps.
pub fn eval_ref(syn: &Value, env: Env, interp: &mut Interp, fuel: u64) -> (res: Result<
    Value,
    Value,
>)
    ensures
        (Outcome { result: result_val(res), world: final(interp)@ }) == eval_spec(
            syn@,
            env as nat,
            old(interp)@,
            fuel as nat,
        ),
    decreases fuel, 0nat, Val::Int(0), 0nat,
{
    let mut left = fuel;
    let mut frame = env;
    let mut owned: Option<Value> = None;
    let mut prefix: Vec<Value> = Vec::new();
    loop
        invariant
            left <= fuel,
            attach_all(
                vals(prefix@),
                eval_spec(current(owned, syn), frame as nat, interp@, left as nat),
            ) == eval_spec(syn@, env as nat, old(interp)@, fuel as nat),
        decreases left,
    {
        if left == 0 {
            return finish(prefix, Err(out_of_steps()));
        }
        left = left - 1;
        let stepped = match &owned {
            Some(v) => step(v, frame, interp, left),
            None => step(syn, frame, interp, left),
        };
        match stepped {
            Step::Done(r) => {
                return finish(prefix, r);
            },
            Step::Tail { syn: next, env: e } => {
                owned = Some(next);
                frame = e;
            },
            Step::Cons { head, syn: next, env: e } => {
                proof {
                    assert(vals(prefix@.push(head)).drop_last() =~= vals(prefix@));
                    assert(vals(prefix@.push(head)).last() == head@);
                }
                prefix.push(head);
                owned = Some(next);
                frame = e;
            },
        }
    }
}

/// The values of the expressions `items[from..to]`, from left to right.
pub fn eval_all(
    items: &Vec<Value>,
    from: usize,
    to: usize,
    env: Env,
    interp: &mut Interp,
    fuel: u64,
) -> (res: Result<Vec<Value>, Value>)
    requires
        from <= to <= items.len(),
    ensures
        (Many { result: many_val(res), world: final(interp)@ }) == eval_seq(
            vals(items@).subrange(from as int, to as int),
            0,
            seq![],
            env as nat,
            old(interp)@,
            fuel as nat,
        ),
    decreases fuel, 1nat, Val::Int(0), 0nat,
{
    let ghost exprs = vals(items@).subrange(from as int, to as int);
    let mut out: Vec<Value> = Vec::new();
    assert(vals(out@) =~= seq![]);
    let mut i: usize = from;
    while i < to
        invariant
            from <= i <= to <= items.len(),
            exprs == vals(items@).subrange(from as int, to as int),
            eval_seq(exprs, i - from, vals(out@), env as nat, interp@, fuel as nat) == eval_seq(
                exprs,
                0,
                seq![],
                env as nat,
                old(interp)@,
                fuel as nat,
            ),
        decreases to - i,
    {
        let ghost before = vals(out@);
        match eval_ref(&items[i], env, interp, fuel) {
            Ok(v) => {
                out.push(v);
                assert(vals(out@) =~= before.push(v@));
            },
            Err(e) => {
                return Err(e);
            },
        }
        i += 1;
    }
    Ok(out)
}

/// Binds the pattern `pat` to `value` in the frame `env`. Gives nothing
/// where the pattern does not match.
pub fn destructure(pat: &Value, value: Value, env: Env, interp: &mut Interp) -> (res: Option<()>)
    ensures
        (res is Some, final(interp)@) == destructure_spec(pat@, value@, env as nat, old(interp)@),
    decreases pat,
{
    match pat {
        Value::Symbol(s) => {
            interp.define(env, s.as_str(), value);
            Some(())
        },
        Value::List(p) => {
            match value {
                Value::List(v) => {
                    if p.len() > v.len() {
                        return None;
                    }
                    let mut i: usize = 0;
                    while i < p.len()
                        invariant
                            i <= p.len() <= v.len(),
                            pat is List,
                            pat->List_0 == *p,
                            value@ == Val::List(vals(v@)),
                            destructure_items(vals(p@), vals(v@), i as int, env as nat, interp@)
                                == destructure_items(
                                vals(p@),
                                vals(v@),
                                0,
                                env as nat,
                                old(interp)@,
                            ),
                        decreases p.len() - i,
                    {
                        assert(decreases_to!(pat => pat->List_0@[i as int]));
                        if destructure(&p[i], v[i].clone(), env, interp).is_none() {
                            return None;
                        }
                        i += 1;
                    }
                    Some(())
                },
                _ => None,
            }
        },
        _ => None,
    }
}

impl Value {
    /// Fills in a template: every `(unquote Y)` in it is replaced by the
    /// value of `Y` in the frame `env`, the rest is copied.
    pub fn quasiquote(&self, env: Env, interp: &mut Interp, fuel: u64) -> (res: Result<
        Value,
        Value,
    >)
        ensures
            (Outcome { result: result_val(res), world: final(interp)@ }) == quasi_spec(
                self@,
                env as nat,
                old(interp)@,
                fuel as nat,
            ),
        decreases fuel, 2nat, self, 0nat,
    {
        match self {
            Value::List(items) => {
                if items.len() > 0 && items[0].is_symbol("unquote") {
                    if items.len() < 2 {
                        return Err(Value::error("InvalidArgs", one(self.clone())));
                    }
                    return eval_ref(&items[1], env, interp, fuel);
                }
                let mut out: Vec<Value> = Vec::new();
                assert(vals(out@) =~= seq![]);
                let mut i: usize = 0;
                while i < items.len()
                    invariant
                        i <= items.len(),
                        self is List,
                        self->List_0 == *items,
                        !(items.len() > 0 && items@[0]@ == Val::Symbol("unquote"@)),
                        quasi_items(
                            vals(items@),
                            i as int,
                            vals(out@),
                            env as nat,
                            interp@,
                            fuel as nat,
                        ) == quasi_items(
                            vals(items@),
                            0,
                            seq![],
                            env as nat,
                            old(interp)@,
                            fuel as nat,
                        ),
                    decreases items.len() - i,
                {
                    let ghost before = vals(out@);
                    assert(decreases_to!(self => self->List_0@[i as int]));
                    match items[i].quasiquote(env, interp, fuel) {
                        Ok(v) => {
                            out.push(v);
                            assert(vals(out@) =~= before.push(v@));
                        },
                        Err(e) => {
                            return Err(e);
                        },
                    }
                    i += 1;
                }
                Ok(Value::List(out))
            },
            other => Ok(other.clone()),
        }
    }
}

/// The list `items` as a value of its own.
fn whole(items: &Vec<Value>) -> (res: Vec<Value>)
    ensures
        vals(res@) == seq![Val::List(vals(items@))],
{
    one(Value::List(clone_values(items)))
}

fn form_lambda(items: &Vec<Value>, env: Env) -> (res: Step)
    ensures
        forall|w: World|
            #![trigger step_lambda(vals(items@), env as nat, w)]
            (Stepped { step: res@, world: w }) == step_lambda(vals(items@), env as nat, w),
{
    if items.len() == 3 {
        Step::Done(
            Ok(
                Value::Lambda {
                    args: Box::new(items[1].clone()),
                    body: Box::new(items[2].clone()),
                    captures: env,
                    is_macro: false,
                },
            ),
        )
    } else {
        Step::Done(Err(Value::error("InvalidLambdaError", clone_values(items))))
    }
}

fn form_if(items: &Vec<Value>, env: Env, interp: &mut Interp, fuel: u64) -> (res: Step)
    ensures
        (Stepped { step: res@, world: final(interp)@ }) == step_if(
            vals(items@),
            env as nat,
            old(interp)@,
            fuel as nat,
        ),
    decreases fuel, 8nat, Val::Int(0), 0nat,
{
    if items.len() == 3 || items.len() == 4 {
        match eval_ref(&items[1], env, interp, fuel) {
            Ok(v) => {
                if v.is_truthy() {
                    Step::Tail { syn: items[2].clone(), env }
                } else if items.len() == 4 {
                    Step::Tail { syn: items[3].clone(), env }
                } else {
                    Step::Done(Ok(Value::nil()))
                }
            },
            Err(e) => Step::Done(Err(e)),
        }
    } else {
        Step::Done(Err(Value::error("InvalidArgs", whole(items))))
    }
}

fn form_quote(items: &Vec<Value>) -> (res: Step)
    ensures
        forall|w: World|
            #![trigger step_quote(vals(items@), w)]
            (Stepped { step: res@, world: w }) == step_quote(vals(items@), w),
{
    if items.len() >= 2 {
        Step::Done(Ok(items[1].clone()))
    } else {
        Step::Done(Err(Value::error("InvalidArgs", whole(items))))
    }
}

fn form_quasiquote(items: &Vec<Value>, env: Env, interp: &mut Interp, fuel: u64) -> (res: Step)
    ensures
        (Stepped { step: res@, world: final(interp)@ }) == step_quasiquote(
            vals(items@),
            env as nat,
            old(interp)@,
            fuel as nat,
        ),
    decreases fuel, 8nat, Val::Int(0), 0nat,
{
    if items.len() >= 2 {
        Step::Done(items[1].quasiquote(env, interp, fuel))
    } else {
        Step::Done(Err(Value::error("InvalidArgs", whole(items))))
    }
}

fn form_err(items: &Vec<Value>, env: Env, interp: &mut Interp, fuel: u64) -> (res: Step)
    ensures
        (Stepped { step: res@, world: final(interp)@ }) == step_err(
            vals(items@),
            env as nat,
            old(interp)@,
            fuel as nat,
        ),
    decreases fuel, 8nat, Val::Int(0), 0nat,
{
    if items.len() >= 2 {
        if let Value::Symbol(kind) = &items[1] {
            return match eval_all(items, 2, items.len(), env, interp, fuel) {
                Ok(vs) => Step::Done(Err(Value::error(kind.as_str(), vs))),
                Err(e) => Step::Done(Err(e)),
            };
        }
    }
    Step::Done(Err(Value::error("InvalidArgs", whole(items))))
}

fn form_cons(items: &Vec<Value>, env: Env, interp: &mut Interp, fuel: u64) -> (res: Step)
    ensures
        (Stepped { step: res@, world: final(interp)@ }) == step_cons(
            vals(items@),
            env as nat,
            old(interp)@,
            fuel as nat,
        ),
    decreases fuel, 8nat, Val::Int(0), 0nat,
{
    if items.len() >= 3 {
        match eval_ref(&items[1], env, interp, fuel) {
            Ok(v) => Step::Cons { head: v, syn: items[2].clone(), env },
            Err(e) => Step::Done(Err(e)),
        }
    } else {
        Step::Done(Err(Value::error("InvalidArgs", whole(items))))
    }
}

fn form_let(items: &Vec<Value>, env: Env, interp: &mut Interp, fuel: u64) -> (res: Step)
    ensures
        (Stepped { step: res@, world: final(interp)@ }) == step_let(
            vals(items@),
            env as nat,
            old(interp)@,
            fuel as nat,
        ),
    decreases fuel, 8nat, Val::Int(0), 0nat,
{
    if items.len() == 3 {
        if let Value::List(assigns) = &items[1] {
            let child = new_env(env, interp);
            let ghost mismatch = error_val("PatternMismatch"@, vals(items@));
            let mut i: usize = 0;
            while i < assigns.len() / 2
                invariant
                    i <= assigns.len() / 2,
                    mismatch == error_val("PatternMismatch"@, vals(items@)),
                    items.len() == 3,
                    items@[1]@ == Val::List(vals(assigns@)),
                    child == old(interp)@.frames.len(),
                    bind_all(vals(assigns@), i as int, mismatch, child as nat, interp@, fuel as nat)
                        == bind_all(
                        vals(assigns@),
                        0,
                        mismatch,
                        child as nat,
                        old(interp)@.push_frame(env as nat),
                        fuel as nat,
                    ),
                decreases assigns.len() / 2 - i,
            {
                match eval_ref(&assigns[2 * i + 1], child, interp, fuel) {
                    Ok(v) => {
                        if destructure(&assigns[2 * i], v, child, interp).is_none() {
                            return Step::Done(
                                Err(Value::error("PatternMismatch", clone_values(items))),
                            );
                        }
                    },
                    Err(e) => {
                        return Step::Done(Err(e));
                    },
                }
                i += 1;
            }
            return Step::Tail { syn: items[2].clone(), env: child };
        }
    }
    Step::Done(Err(Value::error("InvalidArgs", clone_values(items))))
}

fn form_def(items: &Vec<Value>, env: Env, interp: &mut Interp, fuel: u64) -> (res: Step)
    ensures
        (Stepped { step: res@, world: final(interp)@ }) == step_def(
            vals(items@),
            env as nat,
            old(interp)@,
            fuel as nat,
        ),
    decreases fuel, 8nat, Val::Int(0), 0nat,
{
    if items.len() == 3 {
        if let Value::Symbol(name) = &items[1] {
            return match eval_ref(&items[2], env, interp, fuel) {
                Ok(v) => {
                    interp.define(env, name.as_str(), v);
                    interp.attach_doc(name.as_str());
                    Step::Done(Ok(Value::nil()))
                },
                Err(e) => Step::Done(Err(e)),
            };
        }
    }
    Step::Done(Err(Value::error("InvalidArgs", clone_values(items))))
}

fn form_do(items: &Vec<Value>, env: Env, interp: &mut Interp, fuel: u64) -> (res: Step)
    ensures
        (Stepped { step: res@, world: final(interp)@ }) == step_do(
            vals(items@),
            env as nat,
            old(interp)@,
            fuel as nat,
        ),
    decreases fuel, 8nat, Val::Int(0), 0nat,
{
    if items.len() < 2 {
        return Step::Done(Ok(Value::nil()));
    }
    match eval_all(items, 1, items.len() - 1, env, interp, fuel) {
        Ok(_) => Step::Tail { syn: items[items.len() - 1].clone(), env },
        Err(e) => Step::Done(Err(e)),
    }
}

/// Whether the error `e` is of the kind `kind`.
fn error_is(e: &Value, kind: &str) -> (r: bool)
    ensures
        r == crate::eval::model::error_kind_is(e@, kind@),
{
    match e {
        Value::List(l) => l.len() >= 2 && l[1].is_symbol(kind),
        _ => false,
    }
}

/// Finds the catch clause for the error `e` among `items[2..]`.
fn catch(items: &Vec<Value>, e: Value, env: Env, interp: &mut Interp) -> (res: Step)
    requires
        items.len() >= 2,
    ensures
        (Stepped { step: res@, world: final(interp)@ }) == scan_catch(
            vals(items@),
            2,
            e@,
            env as nat,
            old(interp)@,
        ),
{
    let mut i: usize = 2;
    while i < items.len()
        invariant
            2 <= i <= items.len(),
            interp@ == old(interp)@,
            scan_catch(vals(items@), i as int, e@, env as nat, interp@) == scan_catch(
                vals(items@),
                2,
                e@,
                env as nat,
                old(interp)@,
            ),
        decreases items.len() - i,
    {
        let clause = &items[i];
        match clause {
            Value::List(l) => {
                if l.len() < 3 || !l[0].is_symbol("catch*") {
                    return Step::Done(Err(Value::error("InvalidCatchBlock", one(clause.clone()))));
                }
                let first = match &l[1] {
                    Value::Symbol(s) => s,
                    _ => {
                        return Step::Done(
                            Err(Value::error("InvalidCatchBlock", one(clause.clone()))),
                        );
                    },
                };
                if l.len() == 3 {
                    let child = new_env(env, interp);
                    interp.define(child, first.as_str(), e);
                    return Step::Tail { syn: l[2].clone(), env: child };
                }
                if l.len() != 4 {
                    return Step::Done(Err(Value::error("InvalidCatchBlock", one(clause.clone()))));
                }
                let name = match &l[2] {
                    Value::Symbol(s) => s,
                    _ => {
                        return Step::Done(
                            Err(Value::error("InvalidCatchBlock", one(clause.clone()))),
                        );
                    },
                };
                if error_is(&e, first.as_str()) {
                    let child = new_env(env, interp);
                    interp.define(child, name.as_str(), e);
                    return Step::Tail { syn: l[3].clone(), env: child };
                }
            },
            _ => {
                return Step::Done(Err(Value::error("InvalidCatchBlock", one(clause.clone()))));
            },
        }
        i += 1;
    }
    Step::Done(Err(e))
}

fn form_try(items: &Vec<Value>, env: Env, interp: &mut Interp, fuel: u64) -> (res: Step)
    ensures
        (Stepped { step: res@, world: final(interp)@ }) == step_try(
            vals(items@),
            env as nat,
            old(interp)@,
            fuel as nat,
        ),
    decreases fuel, 8nat, Val::Int(0), 0nat,
{
    if items.len() >= 2 {
        match eval_ref(&items[1], env, interp, fuel) {
            Ok(v) => Step::Done(Ok(v)),
            Err(e) => catch(items, e, env, interp),
        }
    } else {
        Step::Done(Err(Value::error("InvalidArgs", whole(items))))
    }
}

fn form_call(items: &Vec<Value>, env: Env, interp: &mut Interp, fuel: u64) -> (res: Step)
    requires
        items.len() > 0,
    ensures
        (Stepped { step: res@, world: final(interp)@ }) == step_call(
            vals(items@),
            env as nat,
            old(interp)@,
            fuel as nat,
        ),
    decreases fuel, 8nat, Val::Int(0), 0nat,
{
    let head = match eval_ref(&items[0], env, interp, fuel) {
        Ok(h) => h,
        Err(e) => {
            return Step::Done(Err(e));
        },
    };
    match head {
        Value::Function { fn_ref, is_macro } => {
            if is_macro {
                let args = clone_range(items, 1, items.len());
                match call_builtin(fn_ref, args, env, interp, fuel) {
                    Ok(next) => Step::Tail { syn: next, env },
                    Err(e) => Step::Done(Err(e)),
                }
            } else {
                match eval_all(items, 1, items.len(), env, interp, fuel) {
                    Ok(args) => Step::Done(call_builtin(fn_ref, args, env, interp, fuel)),
                    Err(e) => Step::Done(Err(e)),
                }
            }
        },
        Value::Lambda { args: params, body, captures, is_macro } => {
            if is_macro {
                let child = new_env(captures, interp);
                let given = Value::List(clone_range(items, 1, items.len()));
                if destructure(&*params, given, child, interp).is_none() {
                    return Step::Done(Err(Value::error("PatternMismatch", one(*params))));
                }
                match eval_ref(&*body, child, interp, fuel) {
                    Ok(next) => Step::Tail { syn: next, env },
                    Err(e) => Step::Done(Err(e)),
                }
            } else {
                match eval_all(items, 1, items.len(), env, interp, fuel) {
                    Ok(args) => {
                        let child = new_env(captures, interp);
                        if destructure(&*params, Value::List(args), child, interp).is_none() {
                            return Step::Done(Err(Value::error("PatternMismatch", one(*params))));
                        }
                        Step::Tail { syn: *body, env: child }
                    },
                    Err(e) => Step::Done(Err(e)),
                }
            }
        },
        other => Step::Done(Err(Value::error("NotAFunction", one(other)))),
    }
}

fn form_list(items: &Vec<Value>, env: Env, interp: &mut Interp, fuel: u64) -> (res: Step)
    requires
        items.len() > 0,
    ensures
        (Stepped { step: res@, world: final(interp)@ }) == step_list(
            vals(items@),
            env as nat,
            old(interp)@,
            fuel as nat,
        ),
    decreases fuel, 9nat, Val::Int(0), 0nat,
{
    let head = &items[0];
    if head.is_symbol("\\") {
        form_lambda(items, env)
    } else if head.is_symbol("if") {
        form_if(items, env, interp, fuel)
    } else if head.is_symbol("quote") {
        form_quote(items)
    } else if head.is_symbol("quasiquote") {
        form_quasiquote(items, env, interp, fuel)
    } else if head.is_symbol("err") {
        form_err(items, env, interp, fuel)
    } else if head.is_symbol("cons") {
        form_cons(items, env, interp, fuel)
    } else if head.is_symbol("let*") {
        form_let(items, env, interp, fuel)
    } else if head.is_symbol("def!") {
        form_def(items, env, interp, fuel)
    } else if head.is_symbol("do") {
        form_do(items, env, interp, fuel)
    } else if head.is_symbol("try*") {
        form_try(items, env, interp, fuel)
    } else {
        form_call(items, env, interp, fuel)
    }
}

/// A table literal: the values of the entries evaluated in order.
fn eval_table(entries: &Vec<(Value, Value)>, env: Env, interp: &mut Interp, fuel: u64) -> (res:
    Result<Value, Value>)
    ensures
        (Outcome { result: result_val(res), world: final(interp)@ }) == eval_entries(
            entry_vals(entries@),
            0,
            seq![],
            env as nat,
            old(interp)@,
            fuel as nat,
        ),
    decreases fuel, 1nat, Val::Int(0), 0nat,
{
    let mut out: Vec<(Value, Value)> = Vec::new();
    assert(entry_vals(out@) =~= seq![]);
    let mut i: usize = 0;
    while i < entries.len()
        invariant
            i <= entries.len(),
            eval_entries(
                entry_vals(entries@),
                i as int,
                entry_vals(out@),
                env as nat,
                interp@,
                fuel as nat,
            ) == eval_entries(
                entry_vals(entries@),
                0,
                seq![],
                env as nat,
                old(interp)@,
                fuel as nat,
            ),
        decreases entries.len() - i,
    {
        let ghost before = entry_vals(out@);
        match eval_ref(&entries[i].1, env, interp, fuel) {
            Ok(v) => {
                let k = entries[i].0.clone();
                out.push((k, v));
                assert(entry_vals(out@) =~= before.push((k@, v@)));
            },
            Err(e) => {
                return Err(e);
            },
        }
        i += 1;
    }
    Ok(Value::Table(out))
}

/// One step of the evaluation of `syn` in the frame `env`.
pub fn step(syn: &Value, env: Env, interp: &mut Interp, fuel: u64) -> (res: Step)
    ensures
        (Stepped { step: res@, world: final(interp)@ }) == step_spec(
            syn@,
            env as nat,
            old(interp)@,
            fuel as nat,
        ),
    decreases fuel, 10nat, Val::Int(0), 0nat,
{
    match syn {
        Value::List(items) => {
            if items.len() == 0 {
                Step::Done(Ok(syn.clone()))
            } else {
                form_list(items, env, interp, fuel)
            }
        },
        Value::Symbol(name) => {
            if syn.is_symbol("true") || syn.is_symbol("false") || syn.is_symbol("nil") {
                Step::Done(Ok(syn.clone()))
            } else {
                match interp.lookup(env, name.as_str()) {
                    Some(v) => Step::Done(Ok(v)),
                    None => Step::Done(
                        Err(Value::error("UnresolvedIdentifier", one(syn.clone()))),
                    ),
                }
            }
        },
        Value::Table(entries) => Step::Done(eval_table(entries, env, interp, fuel)),
        other => Step::Done(Ok(other.clone())),
    }
}

} // verus!
