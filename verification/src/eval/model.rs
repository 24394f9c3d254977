//! What evaluation means: a definition of the language over the models of
//! values and of the interpreter's state.
//!
//! Evaluation is bounded by a number of steps. Every position that is
//! evaluated uses up one step of what its enclosing expression has left, so
//! the definition is a function, which the evaluator is proved to compute.

use vstd::prelude::*;
use crate::env::World;
use crate::eval::builtins::{
    add_spec, as_macro_spec, assoc_spec, chr_spec, cons_spec, contains_spec,
    count_spec, dissoc_spec, div_spec, eq_spec, findall_spec, first_spec, get_spec, keys_spec,
    last_spec, list_spec, mul_spec, not_spec, nth_spec, relation_spec, rem_spec, rest_spec,
    str_spec, sub_spec, symbol_spec, tag_name, to_int_spec, typ_spec, type_is_spec, values_spec,
    Relation,
};
use crate::text::show_items;
use crate::types::{error_val, nil_val, truthy, Builtin, Val};

verus! {

/// What an evaluation gives: a value or an error, and the state it leaves.
pub struct Outcome {
    pub result: Result<Val, Val>,
    pub world: World,
}

/// What the evaluation of several expressions gives.
pub struct Many {
    pub result: Result<Seq<Val>, Val>,
    pub world: World,
}

/// How one step leaves an expression.
pub enum StepV {
    /// Evaluated: this is its value or its error.
    Done(Result<Val, Val>),
    /// Its value is that of `syn` in `env`: a tail position.
    Tail { syn: Val, env: nat },
    /// Its value is the list that `syn` evaluates to in `env`, with `head`
    /// in front.
    Cons { head: Val, syn: Val, env: nat },
}

/// A step and the state it leaves.
pub struct Stepped {
    pub step: StepV,
    pub world: World,
}

/// The error of an evaluation that ran out of steps.
pub open spec fn step_limit() -> Val {
    error_val("StepLimit"@, seq![])
}

/// An evaluation that ends with the value `v`.
pub open spec fn fine(v: Val, w: World) -> Stepped {
    Stepped { step: StepV::Done(Ok(v)), world: w }
}

/// An evaluation that ends with the error `e`.
pub open spec fn fail(e: Val, w: World) -> Stepped {
    Stepped { step: StepV::Done(Err(e)), world: w }
}

/// Puts `head` in front of the list that an evaluation gave. What is no list
/// gives `NotAList`; an error stays.
pub open spec fn attach(head: Val, o: Outcome) -> Outcome {
    Outcome {
        result: match o.result {
            Ok(Val::List(l)) => Ok(Val::List(seq![head] + l)),
            Ok(other) => Err(error_val("NotAList"@, seq![other])),
            Err(e) => Err(e),
        },
        world: o.world,
    }
}

/// Puts the heads in front, the last one first.
pub open spec fn attach_all(heads: Seq<Val>, o: Outcome) -> Outcome
    decreases heads.len(),
{
    if heads.len() == 0 {
        o
    } else {
        attach_all(heads.drop_last(), attach(heads.last(), o))
    }
}

/// Binds the pattern `pat` to the value `v` in the frame `env`. A symbol
/// takes any value; a list of patterns takes a list that is at least as
/// long, element by element; nothing else matches. The bindings made before
/// a mismatch stay.
pub open spec fn destructure_spec(pat: Val, v: Val, env: nat, w: World) -> (bool, World)
    decreases pat, 0nat,
{
    match pat {
        Val::Symbol(s) => (true, w.bind(env, s, v)),
        Val::List(ps) => match v {
            Val::List(vs) => if ps.len() > vs.len() {
                (false, w)
            } else {
                destructure_items(ps, vs, 0, env, w)
            },
            _ => (false, w),
        },
        _ => (false, w),
    }
}

/// Binds the patterns `ps[i..]` to the values at their places.
pub open spec fn destructure_items(ps: Seq<Val>, vs: Seq<Val>, i: int, env: nat, w: World) -> (
    bool,
    World,
)
    decreases ps, ps.len() - i,
{
    if i < 0 || i >= ps.len() {
        (true, w)
    } else {
        let r = destructure_spec(ps[i], vs[i], env, w);
        if r.0 {
            destructure_items(ps, vs, i + 1, env, r.1)
        } else {
            r
        }
    }
}

/// The state after `def!` bound `name`: a documentation string that waited
/// now belongs to the name.
pub open spec fn define_spec(w: World, env: nat, name: Seq<char>, v: Val) -> World {
    w.bind(env, name, v).attach_doc(name)
}

/// Whether the error `e` is of the kind `kind`: its element after `err` is
/// that symbol.
pub open spec fn error_kind_is(e: Val, kind: Seq<char>) -> bool {
    e is List && e->List_0.len() >= 2 && e->List_0[1] == Val::Symbol(kind)
}

/// Looks for the first catch clause among `items[i..]` that takes the error
/// `e`. A clause is `(catch* NAME BODY)`, which takes every error, or
/// `(catch* KIND NAME BODY)`, which takes the errors of that kind. The
/// clause that takes the error binds it to NAME in a new child frame, and
/// BODY is in tail position. An ill-formed clause gives `InvalidCatchBlock`;
/// where no clause takes the error, it is raised again.
pub open spec fn scan_catch(items: Seq<Val>, i: int, e: Val, env: nat, w: World) -> Stepped
    decreases items.len() - i,
{
    if i < 0 || i >= items.len() {
        fail(e, w)
    } else {
        let clause = items[i];
        let bad = fail(error_val("InvalidCatchBlock"@, seq![clause]), w);
        match clause {
            Val::List(l) => if l.len() < 3 || l[0] != Val::Symbol("catch*"@) || !(l[1] is Symbol) {
                bad
            } else if l.len() == 3 {
                let child = w.frames.len();
                Stepped {
                    step: StepV::Tail { syn: l[2], env: child },
                    world: w.push_frame(env).bind(child, l[1]->Symbol_0, e),
                }
            } else if l.len() == 4 && l[2] is Symbol {
                if error_kind_is(e, l[1]->Symbol_0) {
                    let child = w.frames.len();
                    Stepped {
                        step: StepV::Tail { syn: l[3], env: child },
                        world: w.push_frame(env).bind(child, l[2]->Symbol_0, e),
                    }
                } else {
                    scan_catch(items, i + 1, e, env, w)
                }
            } else {
                bad
            },
            _ => bad,
        }
    }
}

/// The value of the expression `syn` in the frame `env`, within `fuel`
/// steps.
pub open spec fn eval_spec(syn: Val, env: nat, w: World, fuel: nat) -> Outcome
    decreases fuel, 0nat, Val::Int(0), 0nat,
{
    if fuel == 0 {
        Outcome { result: Err(step_limit()), world: w }
    } else {
        let s = step_spec(syn, env, w, (fuel - 1) as nat);
        match s.step {
            StepV::Done(r) => Outcome { result: r, world: s.world },
            StepV::Tail { syn: next, env: e } => eval_spec(next, e, s.world, (fuel - 1) as nat),
            StepV::Cons { head, syn: next, env: e } => attach(
                head,
                eval_spec(next, e, s.world, (fuel - 1) as nat),
            ),
        }
    }
}

/// The values of the expressions `items[i..]` in `env`, from left to right,
/// behind the values `acc`. The first error ends it.
pub open spec fn eval_seq(items: Seq<Val>, i: int, acc: Seq<Val>, env: nat, w: World, fuel: nat) -> Many
    decreases fuel, 1nat, Val::Int(0), items.len() - i,
{
    if i < 0 || i >= items.len() {
        Many { result: Ok(acc), world: w }
    } else {
        let o = eval_spec(items[i], env, w, fuel);
        match o.result {
            Ok(v) => eval_seq(items, i + 1, acc.push(v), env, o.world, fuel),
            Err(e) => Many { result: Err(e), world: o.world },
        }
    }
}

/// A table literal: the entries `entries[i..]` with their values evaluated
/// in order and their keys as given, behind the entries `acc`.
pub open spec fn eval_entries(
    entries: Seq<(Val, Val)>,
    i: int,
    acc: Seq<(Val, Val)>,
    env: nat,
    w: World,
    fuel: nat,
) -> Outcome
    decreases fuel, 1nat, Val::Int(0), entries.len() - i,
{
    if i < 0 || i >= entries.len() {
        Outcome { result: Ok(Val::Table(acc)), world: w }
    } else {
        let o = eval_spec(entries[i].1, env, w, fuel);
        match o.result {
            Ok(v) => eval_entries(entries, i + 1, acc.push((entries[i].0, v)), env, o.world, fuel),
            Err(e) => o,
        }
    }
}

/// The template `x` with every `(unquote Y)` in it replaced by the value of
/// `Y`; the rest is kept as it is.
pub open spec fn quasi_spec(x: Val, env: nat, w: World, fuel: nat) -> Outcome
    decreases fuel, 2nat, x, (if x is List { x->List_0.len() + 1 } else { 0 }),
{
    match x {
        Val::List(items) => if items.len() > 0 && items[0] == Val::Symbol("unquote"@) {
            if items.len() < 2 {
                Outcome { result: Err(error_val("InvalidArgs"@, seq![x])), world: w }
            } else {
                eval_spec(items[1], env, w, fuel)
            }
        } else {
            let m = quasi_items(items, 0, seq![], env, w, fuel);
            match m.result {
                Ok(vs) => Outcome { result: Ok(Val::List(vs)), world: m.world },
                Err(e) => Outcome { result: Err(e), world: m.world },
            }
        },
        other => Outcome { result: Ok(other), world: w },
    }
}

/// The templates `items[i..]` filled in from left to right, behind `acc`.
pub open spec fn quasi_items(items: Seq<Val>, i: int, acc: Seq<Val>, env: nat, w: World, fuel: nat) -> Many
    decreases fuel, 2nat, Val::List(items), items.len() - i,
{
    if i < 0 || i >= items.len() {
        Many { result: Ok(acc), world: w }
    } else {
        proof {
            let x = Val::List(items);
            assert(decreases_to!(x => x->List_0));
            assert(decreases_to!(x->List_0 => x->List_0[i]));
        }
        let o = quasi_spec(items[i], env, w, fuel);
        match o.result {
            Ok(v) => quasi_items(items, i + 1, acc.push(v), env, o.world, fuel),
            Err(e) => Many { result: Err(e), world: o.world },
        }
    }
}

/// Calls the function value `f` on the list of arguments `arg`. A host
/// function takes the elements of the list; a lambda binds its pattern to
/// `arg` in a new child of the frame it captured and gives the value of its
/// body. A macro is no function here.
pub open spec fn apply_spec(f: Val, arg: Val, env: nat, w: World, fuel: nat) -> Outcome
    decreases fuel, 3nat, Val::Int(0), 0nat,
{
    match f {
        Val::Function { fn_ref, is_macro: false } => match arg {
            Val::List(l) => if fuel == 0 {
                Outcome { result: Err(step_limit()), world: w }
            } else {
                builtin_spec(fn_ref, l, env, w, (fuel - 1) as nat)
            },
            other => Outcome { result: Err(error_val("NotAList"@, seq![other])), world: w },
        },
        Val::Lambda { args: params, body, captures, is_macro: false } => {
            let child = w.frames.len();
            let bound = destructure_spec(*params, arg, child, w.push_frame(captures));
            if bound.0 {
                eval_spec(*body, child, bound.1, fuel)
            } else {
                Outcome {
                    result: Err(error_val("PatternMismatch"@, seq![*params])),
                    world: bound.1,
                }
            }
        },
        other => Outcome { result: Err(error_val("NotAFunction"@, seq![other])), world: w },
    }
}

/// `f` called on each of `items[i..]` in turn, the results behind `acc`.
pub open spec fn map_items(
    f: Val,
    items: Seq<Val>,
    i: int,
    acc: Seq<Val>,
    env: nat,
    w: World,
    fuel: nat,
) -> Outcome
    decreases fuel, 4nat, Val::Int(0), items.len() - i,
{
    if i < 0 || i >= items.len() {
        Outcome { result: Ok(Val::List(acc)), world: w }
    } else {
        let o = apply_spec(f, Val::List(seq![items[i]]), env, w, fuel);
        match o.result {
            Ok(v) => map_items(f, items, i + 1, acc.push(v), env, o.world, fuel),
            Err(e) => o,
        }
    }
}

/// The characters of a text, each as a string of its own.
pub open spec fn char_strings(s: Seq<char>) -> Seq<Val> {
    Seq::new(s.len(), |i: int| Val::Str(seq![s[i]]))
}

/// An operation that neither reads nor changes the state.
pub open spec fn pure(r: Result<Val, Val>, w: World) -> Outcome {
    Outcome { result: r, world: w }
}

/// The error for arguments that an operation does not take.
pub open spec fn invalid_args(args: Seq<Val>, w: World) -> Outcome {
    Outcome { result: Err(error_val("InvalidArgs"@, args)), world: w }
}

/// `atom`: a new atom that holds the argument.
pub open spec fn atom_spec(args: Seq<Val>, w: World) -> Outcome {
    if args.len() == 1 {
        Outcome { result: Ok(Val::Atom(w.atoms.len())), world: w.push_atom(args[0]) }
    } else {
        invalid_args(args, w)
    }
}

/// `set!`: stores a value in an atom and gives what the atom held before.
pub open spec fn set_atom_spec(args: Seq<Val>, w: World) -> Outcome {
    if args.len() == 2 && args[0] is Atom && args[0]->Atom_0 < w.atoms.len() {
        let a = args[0]->Atom_0;
        Outcome { result: Ok(w.atoms[a as int]), world: w.set_atom(a, args[1]) }
    } else {
        invalid_args(args, w)
    }
}

/// `inspect!`: replaces what an atom holds by what the function makes of
/// it, and gives the new contents.
pub open spec fn inspect_atom_spec(args: Seq<Val>, env: nat, w: World, fuel: nat) -> Outcome
    decreases fuel, 4nat, Val::Int(0), 0nat,
{
    if args.len() == 2 && args[0] is Atom && args[0]->Atom_0 < w.atoms.len() {
        let a = args[0]->Atom_0;
        let o = apply_spec(args[1], Val::List(seq![w.atoms[a as int]]), env, w, fuel);
        match o.result {
            Ok(v) => Outcome { result: Ok(v), world: o.world.set_atom(a, v) },
            Err(e) => o,
        }
    } else {
        invalid_args(args, w)
    }
}

/// `print`: one more line of output, the display forms of the arguments
/// parted by single spaces; the value is `nil`.
pub open spec fn print_spec(args: Seq<Val>, w: World) -> Outcome {
    Outcome { result: Ok(nil_val()), world: w.print(show_items(args, false)) }
}

/// `input`: the next line of input as a string, the empty string where no
/// input is left.
pub open spec fn input_spec(args: Seq<Val>, w: World) -> Outcome {
    Outcome {
        result: Ok(
            Val::Str(
                if w.input.len() > 0 {
                    w.input[0]
                } else {
                    Seq::empty()
                },
            ),
        ),
        world: w.take_input(),
    }
}

/// `doc`: keeps a documentation string for the next definition.
pub open spec fn doc_spec(args: Seq<Val>, w: World) -> Outcome {
    if args.len() == 1 && args[0] is Str {
        Outcome { result: Ok(nil_val()), world: World { pending_doc: Some(args[0]->Str_0), ..w } }
    } else {
        invalid_args(args, w)
    }
}

/// `help`: the documentation string of a name, given as a symbol or as a
/// string; `nil` where there is none.
pub open spec fn help_spec(args: Seq<Val>, w: World) -> Outcome {
    if args.len() != 1 {
        invalid_args(args, w)
    } else {
        let name = match args[0] {
            Val::Symbol(s) => Some(s),
            Val::Str(s) => Some(s),
            _ => None,
        };
        pure(
            Ok(
                if name is Some && w.docs.contains_key(name->0) {
                    Val::Str(w.docs[name->0])
                } else {
                    nil_val()
                },
            ),
            w,
        )
    }
}

/// `quit`: notes that the program asked to stop.
pub open spec fn quit_spec(args: Seq<Val>, w: World) -> Outcome {
    Outcome { result: Ok(nil_val()), world: World { quit: true, ..w } }
}

/// `eval`: the value of the argument as an expression in the caller's
/// frame; of several arguments, the list of their values.
pub open spec fn eval_builtin_spec(args: Seq<Val>, env: nat, w: World, fuel: nat) -> Outcome
    decreases fuel, 4nat, Val::Int(0), 0nat,
{
    if args.len() == 1 {
        eval_spec(args[0], env, w, fuel)
    } else {
        let m = eval_seq(args, 0, seq![], env, w, fuel);
        match m.result {
            Ok(vs) => Outcome { result: Ok(Val::List(vs)), world: m.world },
            Err(e) => Outcome { result: Err(e), world: m.world },
        }
    }
}

/// `apply`: calls a function on the elements of a list.
pub open spec fn apply_builtin_spec(args: Seq<Val>, env: nat, w: World, fuel: nat) -> Outcome
    decreases fuel, 4nat, Val::Int(0), 0nat,
{
    if args.len() == 2 {
        apply_spec(args[0], args[1], env, w, fuel)
    } else {
        invalid_args(args, w)
    }
}

/// `map`: the list of what a function gives for each element of a list, or
/// for each character of a string.
pub open spec fn map_spec(args: Seq<Val>, env: nat, w: World, fuel: nat) -> Outcome
    decreases fuel, 5nat, Val::Int(0), 0nat,
{
    if args.len() != 2 {
        invalid_args(args, w)
    } else {
        match args[1] {
            Val::List(l) => map_items(args[0], l, 0, seq![], env, w, fuel),
            Val::Str(s) => map_items(args[0], char_strings(s), 0, seq![], env, w, fuel),
            other => Outcome { result: Err(error_val("NotASequence"@, seq![other])), world: w },
        }
    }
}

/// What the host operation `f` gives for the arguments `args`, called from
/// the frame `env`.
pub open spec fn builtin_spec(f: Builtin, args: Seq<Val>, env: nat, w: World, fuel: nat) -> Outcome
    decreases fuel, 6nat, Val::Int(0), 0nat,
{
    match f {
        Builtin::Add => pure(add_spec(args), w),
        Builtin::Sub => pure(sub_spec(args), w),
        Builtin::Mul => pure(mul_spec(args), w),
        Builtin::Div => pure(div_spec(args), w),
        Builtin::Rem => pure(rem_spec(args), w),
        Builtin::Eq => pure(eq_spec(args), w),
        Builtin::Lt => pure(relation_spec(Relation::Less, args), w),
        Builtin::Le => pure(relation_spec(Relation::LessEq, args), w),
        Builtin::Gt => pure(relation_spec(Relation::Greater, args), w),
        Builtin::Ge => pure(relation_spec(Relation::GreaterEq, args), w),
        Builtin::Not => pure(not_spec(args), w),
        Builtin::Type => pure(typ_spec(args), w),
        Builtin::TypeIs(tag) => pure(type_is_spec(tag_name(tag), args), w),
        Builtin::List => pure(list_spec(args), w),
        Builtin::First => pure(first_spec(args), w),
        Builtin::Last => pure(last_spec(args), w),
        Builtin::Rest => pure(rest_spec(args), w),
        Builtin::Nth => pure(nth_spec(args), w),
        Builtin::Count => pure(count_spec(args), w),
        Builtin::Cons => pure(cons_spec(args), w),
        Builtin::MapOver => map_spec(args, env, w, fuel),
        Builtin::Assoc => pure(assoc_spec(args), w),
        Builtin::Dissoc => pure(dissoc_spec(args), w),
        Builtin::Get => pure(get_spec(args), w),
        Builtin::Keys => pure(keys_spec(args), w),
        Builtin::Values => pure(values_spec(args), w),
        Builtin::Contains => pure(contains_spec(args), w),
        Builtin::Str => pure(str_spec(args), w),
        Builtin::Symbol => pure(symbol_spec(args), w),
        Builtin::Int => pure(to_int_spec(args), w),
        Builtin::Chr => pure(chr_spec(args), w),
        Builtin::Findall => pure(findall_spec(args), w),
        Builtin::Print => print_spec(args, w),
        Builtin::Input => input_spec(args, w),
        Builtin::Apply => apply_builtin_spec(args, env, w, fuel),
        Builtin::Eval => eval_builtin_spec(args, env, w, fuel),
        Builtin::Macro => pure(as_macro_spec(args), w),
        Builtin::Atom => atom_spec(args, w),
        Builtin::SetAtom => set_atom_spec(args, w),
        Builtin::InspectAtom => inspect_atom_spec(args, env, w, fuel),
        Builtin::Doc => doc_spec(args, w),
        Builtin::Help => help_spec(args, w),
        Builtin::Quit => quit_spec(args, w),
    }
}

/// The bindings of `let*`: for each pattern and expression of `assigns`
/// from the pair `i` on, the expression is evaluated in `env` and its value
/// bound to the pattern there. A pattern that does not match gives the
/// error `mismatch`.
pub open spec fn bind_all(assigns: Seq<Val>, i: int, mismatch: Val, env: nat, w: World, fuel: nat) -> (
    Option<Val>,
    World,
)
    decreases fuel, 7nat, Val::Int(0), assigns.len() - 2 * i,
{
    if i < 0 || 2 * i + 1 >= assigns.len() {
        (None, w)
    } else {
        let o = eval_spec(assigns[2 * i + 1], env, w, fuel);
        match o.result {
            Ok(v) => {
                let bound = destructure_spec(assigns[2 * i], v, env, o.world);
                if bound.0 {
                    bind_all(assigns, i + 1, mismatch, env, bound.1, fuel)
                } else {
                    (Some(mismatch), bound.1)
                }
            },
            Err(e) => (Some(e), o.world),
        }
    }
}

/// `(\ PARAMS BODY)`: a lambda that captures the current frame.
pub open spec fn step_lambda(items: Seq<Val>, env: nat, w: World) -> Stepped {
    if items.len() == 3 {
        fine(
            Val::Lambda {
                args: Box::new(items[1]),
                body: Box::new(items[2]),
                captures: env,
                is_macro: false,
            },
            w,
        )
    } else {
        fail(error_val("InvalidLambdaError"@, items), w)
    }
}

/// `(if C T)` and `(if C T F)`: the branch that the condition selects is in
/// tail position; without the branch F the value is `nil`.
pub open spec fn step_if(items: Seq<Val>, env: nat, w: World, fuel: nat) -> Stepped
    decreases fuel, 8nat, Val::Int(0), 0nat,
{
    if items.len() == 3 || items.len() == 4 {
        let c = eval_spec(items[1], env, w, fuel);
        match c.result {
            Ok(v) => if truthy(v) {
                Stepped { step: StepV::Tail { syn: items[2], env }, world: c.world }
            } else if items.len() == 4 {
                Stepped { step: StepV::Tail { syn: items[3], env }, world: c.world }
            } else {
                fine(nil_val(), c.world)
            },
            Err(e) => fail(e, c.world),
        }
    } else {
        fail(error_val("InvalidArgs"@, seq![Val::List(items)]), w)
    }
}

/// `(quote X)`: X as it stands.
pub open spec fn step_quote(items: Seq<Val>, w: World) -> Stepped {
    if items.len() >= 2 {
        fine(items[1], w)
    } else {
        fail(error_val("InvalidArgs"@, seq![Val::List(items)]), w)
    }
}

/// `(quasiquote X)`: X with its unquoted parts evaluated.
pub open spec fn step_quasiquote(items: Seq<Val>, env: nat, w: World, fuel: nat) -> Stepped
    decreases fuel, 8nat, Val::Int(0), 0nat,
{
    if items.len() >= 2 {
        let o = quasi_spec(items[1], env, w, fuel);
        Stepped { step: StepV::Done(o.result), world: o.world }
    } else {
        fail(error_val("InvalidArgs"@, seq![Val::List(items)]), w)
    }
}

/// `(err KIND ARGS...)`: raises the error `(err KIND values...)`. KIND is a
/// symbol and is not evaluated; the arguments are, from left to right.
pub open spec fn step_err(items: Seq<Val>, env: nat, w: World, fuel: nat) -> Stepped
    decreases fuel, 8nat, Val::Int(0), 0nat,
{
    if items.len() >= 2 && items[1] is Symbol {
        let m = eval_seq(items.subrange(2, items.len() as int), 0, seq![], env, w, fuel);
        match m.result {
            Ok(vs) => fail(error_val(items[1]->Symbol_0, vs), m.world),
            Err(e) => fail(e, m.world),
        }
    } else {
        fail(error_val("InvalidArgs"@, seq![Val::List(items)]), w)
    }
}

/// `(cons E TAIL)`: the value of E in front of the list that TAIL, in tail
/// position, evaluates to.
pub open spec fn step_cons(items: Seq<Val>, env: nat, w: World, fuel: nat) -> Stepped
    decreases fuel, 8nat, Val::Int(0), 0nat,
{
    if items.len() >= 3 {
        let o = eval_spec(items[1], env, w, fuel);
        match o.result {
            Ok(v) => Stepped { step: StepV::Cons { head: v, syn: items[2], env }, world: o.world },
            Err(e) => fail(e, o.world),
        }
    } else {
        fail(error_val("InvalidArgs"@, seq![Val::List(items)]), w)
    }
}

/// `(let* BINDINGS BODY)`: the bindings are made in a new child frame, one
/// after the other, and BODY is in tail position there.
pub open spec fn step_let(items: Seq<Val>, env: nat, w: World, fuel: nat) -> Stepped
    decreases fuel, 8nat, Val::Int(0), 0nat,
{
    if items.len() == 3 && items[1] is List {
        let child = w.frames.len();
        let bound = bind_all(
            items[1]->List_0,
            0,
            error_val("PatternMismatch"@, items),
            child,
            w.push_frame(env),
            fuel,
        );
        match bound.0 {
            None => Stepped { step: StepV::Tail { syn: items[2], env: child }, world: bound.1 },
            Some(e) => fail(e, bound.1),
        }
    } else {
        fail(error_val("InvalidArgs"@, items), w)
    }
}

/// `(def! NAME VALUE)`: binds the symbol NAME to the value of VALUE in the
/// current frame; the value is `nil`.
pub open spec fn step_def(items: Seq<Val>, env: nat, w: World, fuel: nat) -> Stepped
    decreases fuel, 8nat, Val::Int(0), 0nat,
{
    if items.len() == 3 && items[1] is Symbol {
        let o = eval_spec(items[2], env, w, fuel);
        match o.result {
            Ok(v) => fine(nil_val(), define_spec(o.world, env, items[1]->Symbol_0, v)),
            Err(e) => fail(e, o.world),
        }
    } else {
        fail(error_val("InvalidArgs"@, items), w)
    }
}

/// `(do E1 ... En)`: all but the last are evaluated for what they do, the
/// last is in tail position; without any the value is `nil`.
pub open spec fn step_do(items: Seq<Val>, env: nat, w: World, fuel: nat) -> Stepped
    decreases fuel, 8nat, Val::Int(0), 0nat,
{
    if items.len() < 2 {
        fine(nil_val(), w)
    } else {
        let m = eval_seq(items.subrange(1, items.len() - 1), 0, seq![], env, w, fuel);
        match m.result {
            Ok(_) => Stepped { step: StepV::Tail { syn: items.last(), env }, world: m.world },
            Err(e) => fail(e, m.world),
        }
    }
}

/// `(try* E CATCH...)`: the value of E, or what the first clause that takes
/// its error gives.
pub open spec fn step_try(items: Seq<Val>, env: nat, w: World, fuel: nat) -> Stepped
    decreases fuel, 8nat, Val::Int(0), 0nat,
{
    if items.len() >= 2 {
        let o = eval_spec(items[1], env, w, fuel);
        match o.result {
            Ok(v) => fine(v, o.world),
            Err(e) => scan_catch(items, 2, e, env, o.world),
        }
    } else {
        fail(error_val("InvalidArgs"@, seq![Val::List(items)]), w)
    }
}

/// An application: the head is evaluated and decides. A function is called
/// on the values of the arguments. A macro is called on the arguments as
/// they stand, and what it gives is in tail position in the current frame.
/// A lambda's body is in tail position in a new child of the frame that the
/// lambda captured.
pub open spec fn step_call(items: Seq<Val>, env: nat, w: World, fuel: nat) -> Stepped
    decreases fuel, 8nat, Val::Int(0), 0nat,
{
    let h = eval_spec(items[0], env, w, fuel);
    let rest = items.subrange(1, items.len() as int);
    match h.result {
        Err(e) => fail(e, h.world),
        Ok(Val::Function { fn_ref, is_macro: false }) => {
            let m = eval_seq(rest, 0, seq![], env, h.world, fuel);
            match m.result {
                Ok(vs) => {
                    let o = builtin_spec(fn_ref, vs, env, m.world, fuel);
                    Stepped { step: StepV::Done(o.result), world: o.world }
                },
                Err(e) => fail(e, m.world),
            }
        },
        Ok(Val::Function { fn_ref, is_macro: true }) => {
            let o = builtin_spec(fn_ref, rest, env, h.world, fuel);
            match o.result {
                Ok(next) => Stepped { step: StepV::Tail { syn: next, env }, world: o.world },
                Err(e) => fail(e, o.world),
            }
        },
        Ok(Val::Lambda { args: params, body, captures, is_macro: false }) => {
            let m = eval_seq(rest, 0, seq![], env, h.world, fuel);
            match m.result {
                Ok(vs) => {
                    let child = m.world.frames.len();
                    let bound = destructure_spec(
                        *params,
                        Val::List(vs),
                        child,
                        m.world.push_frame(captures),
                    );
                    if bound.0 {
                        Stepped { step: StepV::Tail { syn: *body, env: child }, world: bound.1 }
                    } else {
                        fail(error_val("PatternMismatch"@, seq![*params]), bound.1)
                    }
                },
                Err(e) => fail(e, m.world),
            }
        },
        Ok(Val::Lambda { args: params, body, captures, is_macro: true }) => {
            let child = h.world.frames.len();
            let bound = destructure_spec(
                *params,
                Val::List(rest),
                child,
                h.world.push_frame(captures),
            );
            if bound.0 {
                let o = eval_spec(*body, child, bound.1, fuel);
                match o.result {
                    Ok(next) => Stepped { step: StepV::Tail { syn: next, env }, world: o.world },
                    Err(e) => fail(e, o.world),
                }
            } else {
                fail(error_val("PatternMismatch"@, seq![*params]), bound.1)
            }
        },
        Ok(other) => fail(error_val("NotAFunction"@, seq![other]), h.world),
    }
}

/// A list that is not empty: a special form where its head is the symbol of
/// one, an application else.
pub open spec fn step_list(items: Seq<Val>, env: nat, w: World, fuel: nat) -> Stepped
    decreases fuel, 9nat, Val::Int(0), 0nat,
{
    let head = items[0];
    if head == Val::Symbol("\\"@) {
        step_lambda(items, env, w)
    } else if head == Val::Symbol("if"@) {
        step_if(items, env, w, fuel)
    } else if head == Val::Symbol("quote"@) {
        step_quote(items, w)
    } else if head == Val::Symbol("quasiquote"@) {
        step_quasiquote(items, env, w, fuel)
    } else if head == Val::Symbol("err"@) {
        step_err(items, env, w, fuel)
    } else if head == Val::Symbol("cons"@) {
        step_cons(items, env, w, fuel)
    } else if head == Val::Symbol("let*"@) {
        step_let(items, env, w, fuel)
    } else if head == Val::Symbol("def!"@) {
        step_def(items, env, w, fuel)
    } else if head == Val::Symbol("do"@) {
        step_do(items, env, w, fuel)
    } else if head == Val::Symbol("try*"@) {
        step_try(items, env, w, fuel)
    } else {
        step_call(items, env, w, fuel)
    }
}

/// One step of the evaluation of `syn` in the frame `env`. Integers,
/// strings, functions, lambdas and atoms are their own value, and so are the
/// symbols `true`, `false` and `nil`; any other symbol is looked up.
pub open spec fn step_spec(syn: Val, env: nat, w: World, fuel: nat) -> Stepped
    decreases fuel, 10nat, Val::Int(0), 0nat,
{
    match syn {
        Val::List(items) => if items.len() == 0 {
            fine(syn, w)
        } else {
            step_list(items, env, w, fuel)
        },
        Val::Symbol(name) => if name == "true"@ || name == "false"@ || name == "nil"@ {
            fine(syn, w)
        } else {
            match w.lookup(env, name) {
                Some(v) => fine(v, w),
                None => fail(error_val("UnresolvedIdentifier"@, seq![syn]), w),
            }
        },
        Val::Table(entries) => {
            let o = eval_entries(entries, 0, seq![], env, w, fuel);
            Stepped { step: StepV::Done(o.result), world: o.world }
        },
        other => fine(other, w),
    }
}

} // verus!
