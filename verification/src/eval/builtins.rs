//! The host operations that programs reach through the root environment.

use vstd::prelude::*;
use crate::env::{new_env, Interp};
use crate::eval::model::{
    apply_builtin_spec, apply_spec, atom_spec, builtin_spec, char_strings, doc_spec,
    eval_builtin_spec, help_spec, input_spec, inspect_atom_spec, map_items, map_spec, print_spec,
    quit_spec, set_atom_spec, Outcome,
};
use crate::eval::{destructure, eval_all, eval_ref, out_of_steps};
use crate::table::{
    clone_entries, find_entry, find_key, insert_entry, remove_entry, table_get, table_insert,
    table_remove,
};
use crate::text::{char_string, decimal, show_items, parse_i32, push_decimal_nat, read_i32, show, string_of, to_chars, IntFailure};
use crate::types::{
    bool_val, clone_range, entry_vals, error_val, nil_val, one, prepend, result_val, truthy, two,
    val_eq, vals, Builtin, Env, TypeTag, Val, Value,
};

verus! {

broadcast use crate::types::group_value_models;

/// The arithmetic operations that fold over their arguments.
#[derive(Clone, Copy, Debug, PartialEq, Eq, Structural)]
pub enum ArithOp {
    Plus,
    Minus,
    Times,
}

/// One step of a fold: the accumulator and the next argument, wrapping on
/// overflow.
pub open spec fn arith_step(op: ArithOp, acc: i32, x: i32) -> i32 {
    match op {
        ArithOp::Plus => acc.wrapping_add(x),
        ArithOp::Minus => acc.wrapping_sub(x),
        ArithOp::Times => acc.wrapping_mul(x),
    }
}

/// Folds `op` over the arguments from index `i` on, left to right, starting
/// from `acc`. The first argument that is no integer ends the fold with
/// `NotANumber`.
pub open spec fn fold_ints(op: ArithOp, args: Seq<Val>, i: int, acc: i32) -> Result<Val, Val>
    decreases args.len() - i,
{
    if i < 0 || i >= args.len() {
        Ok(Val::Int(acc))
    } else {
        match args[i] {
            Val::Int(x) => fold_ints(op, args, i + 1, arith_step(op, acc, x)),
            other => Err(error_val("NotANumber"@, seq![other])),
        }
    }
}

/// `+`: the sum of the arguments, 0 for none.
pub open spec fn add_spec(args: Seq<Val>) -> Result<Val, Val> {
    fold_ints(ArithOp::Plus, args, 0, 0)
}

/// `-`: the left fold `0 - x1 - x2 ...`, so the negation of one argument and
/// 0 for none.
pub open spec fn sub_spec(args: Seq<Val>) -> Result<Val, Val> {
    fold_ints(ArithOp::Minus, args, 0, 0)
}

/// `*`: the product of the arguments, 1 for none.
pub open spec fn mul_spec(args: Seq<Val>) -> Result<Val, Val> {
    fold_ints(ArithOp::Times, args, 0, 1)
}

fn fold_arith(op: ArithOp, args: &Vec<Value>, init: i32) -> (res: Result<Value, Value>)
    ensures
        result_val(res) == fold_ints(op, vals(args@), 0, init),
{
    let mut acc: i32 = init;
    let mut i: usize = 0;
    while i < args.len()
        invariant
            i <= args.len(),
            fold_ints(op, vals(args@), i as int, acc) == fold_ints(op, vals(args@), 0, init),
        decreases args.len() - i,
    {
        match &args[i] {
            Value::Int(x) => {
                acc = match op {
                    ArithOp::Plus => acc.wrapping_add(*x),
                    ArithOp::Minus => acc.wrapping_sub(*x),
                    ArithOp::Times => acc.wrapping_mul(*x),
                };
            },
            other => {
                let mut context: Vec<Value> = Vec::new();
                context.push(other.clone());
                assert(vals(context@) =~= seq![vals(args@)[i as int]]);
                return Err(Value::error("NotANumber", context));
            },
        }
        i += 1;
    }
    Ok(Value::Int(acc))
}

/// The host operation `+`.
pub fn add(args: Vec<Value>, _env: Env) -> (res: Result<Value, Value>)
    ensures
        result_val(res) == add_spec(vals(args@)),
{
    fold_arith(ArithOp::Plus, &args, 0)
}

/// The host operation `-`.
pub fn sub(args: Vec<Value>, _env: Env) -> (res: Result<Value, Value>)
    ensures
        result_val(res) == sub_spec(vals(args@)),
{
    fold_arith(ArithOp::Minus, &args, 0)
}

/// The host operation `*`.
pub fn mul(args: Vec<Value>, _env: Env) -> (res: Result<Value, Value>)
    ensures
        result_val(res) == mul_spec(vals(args@)),
{
    fold_arith(ArithOp::Times, &args, 1)
}

/// The absolute value of an integer.
pub open spec fn magnitude(a: int) -> int {
    if a < 0 {
        -a
    } else {
        a
    }
}

/// The quotient of `a` by `b`, rounded toward zero. `b` is not 0.
pub open spec fn trunc_div(a: int, b: int) -> int {
    if (a < 0) == (b < 0) {
        magnitude(a) / magnitude(b)
    } else {
        -(magnitude(a) / magnitude(b))
    }
}

/// What is left of `a` after the division by `b` that rounds toward zero.
pub open spec fn trunc_rem(a: int, b: int) -> int {
    a - b * trunc_div(a, b)
}

/// The quotient as a 32-bit integer. The one quotient out of range, that of
/// the least integer by -1, wraps to the least integer.
pub open spec fn div_i32(a: i32, b: i32) -> i32 {
    if a == i32::MIN && b == -1 {
        i32::MIN
    } else {
        trunc_div(a as int, b as int) as i32
    }
}

/// The remainder as a 32-bit integer.
pub open spec fn rem_i32(a: i32, b: i32) -> i32 {
    trunc_rem(a as int, b as int) as i32
}

/// What `/` and `%` have in common: exactly two arguments, the first that is
/// no integer gives `NotANumber`, a zero divisor `DivideByZero`.
pub open spec fn division_spec(args: Seq<Val>, remainder: bool) -> Result<Val, Val> {
    if args.len() != 2 {
        Err(error_val("InvalidArgs"@, seq![Val::List(args)]))
    } else if !(args[0] is Int) {
        Err(error_val("NotANumber"@, seq![args[0]]))
    } else if !(args[1] is Int) {
        Err(error_val("NotANumber"@, seq![args[1]]))
    } else if args[1]->Int_0 == 0 {
        Err(error_val("DivideByZero"@, seq![]))
    } else if remainder {
        Ok(Val::Int(rem_i32(args[0]->Int_0, args[1]->Int_0)))
    } else {
        Ok(Val::Int(div_i32(args[0]->Int_0, args[1]->Int_0)))
    }
}

/// `/`: the quotient of two integers, rounded toward zero.
pub open spec fn div_spec(args: Seq<Val>) -> Result<Val, Val> {
    division_spec(args, false)
}

/// `%`: the remainder of that division.
pub open spec fn rem_spec(args: Seq<Val>) -> Result<Val, Val> {
    division_spec(args, true)
}

fn divide(a: i32, b: i32) -> (r: (i32, i32))
    requires
        b != 0,
    ensures
        r.0 == div_i32(a, b),
        r.1 == rem_i32(a, b),
{
    let ua: u64 = if a < 0 {
        (-(a as i64)) as u64
    } else {
        a as u64
    };
    let ub: u64 = if b < 0 {
        (-(b as i64)) as u64
    } else {
        b as u64
    };
    let q: u64 = ua / ub;
    let m: u64 = ua % ub;
    assert(ua == magnitude(a as int));
    assert(ub == magnitude(b as int));
    assert(q <= ua) by (nonlinear_arith)
        requires
            q == ua / ub,
            ub >= 1,
    ;
    assert(ua == ub * q + m) by (nonlinear_arith)
        requires
            q == ua / ub,
            m == ua % ub,
            ub >= 1,
    ;
    let sq: i64 = if (a < 0) == (b < 0) {
        q as i64
    } else {
        -(q as i64)
    };
    assert(sq == trunc_div(a as int, b as int));
    // the remainder takes the sign of the dividend
    let sm: i64 = if a < 0 {
        -(m as i64)
    } else {
        m as i64
    };
    assert(sm == trunc_rem(a as int, b as int)) by (nonlinear_arith)
        requires
            ua == ub * q + m,
            ua == magnitude(a as int),
            ub == magnitude(b as int),
            sq == trunc_div(a as int, b as int),
            sq == (if (a < 0) == (b < 0) {
                q as int
            } else {
                -(q as int)
            }),
            sm == (if a < 0 {
                -(m as int)
            } else {
                m as int
            }),
    ;
    assert(m < ub);
    assert(ub >= 2 ==> 2 * q <= ua) by (nonlinear_arith)
        requires
            ua == ub * q + m,
            0 <= m,
            0 <= q,
    ;
    assert(ub == 1 ==> q == ua) by (nonlinear_arith)
        requires
            ua == ub * q + m,
            0 <= m < ub,
    ;
    let quotient: i32 = if sq > 2147483647 {
        i32::MIN
    } else {
        sq as i32
    };
    (quotient, sm as i32)
}

fn division(args: Vec<Value>, remainder: bool) -> (res: Result<Value, Value>)
    ensures
        result_val(res) == division_spec(vals(args@), remainder),
{
    if args.len() != 2 {
        return Err(Value::error("InvalidArgs", one(Value::List(args))));
    }
    let a: i32 = match &args[0] {
        Value::Int(a) => *a,
        other => {
            return Err(Value::error("NotANumber", one(other.clone())));
        },
    };
    let b: i32 = match &args[1] {
        Value::Int(b) => *b,
        other => {
            return Err(Value::error("NotANumber", one(other.clone())));
        },
    };
    if b == 0 {
        let context: Vec<Value> = Vec::new();
        assert(vals(context@) =~= seq![]);
        return Err(Value::error("DivideByZero", context));
    }
    let (q, m) = divide(a, b);
    if remainder {
        Ok(Value::Int(m))
    } else {
        Ok(Value::Int(q))
    }
}

/// The host operation `/`.
pub fn div(args: Vec<Value>, _env: Env) -> (res: Result<Value, Value>)
    ensures
        result_val(res) == div_spec(vals(args@)),
{
    division(args, false)
}

/// The host operation `%`.
pub fn rem(args: Vec<Value>, _env: Env) -> (res: Result<Value, Value>)
    ensures
        result_val(res) == rem_spec(vals(args@)),
{
    division(args, true)
}

/// `=`: true for no argument or one, else whether every argument equals the
/// first.
pub open spec fn eq_spec(args: Seq<Val>) -> Result<Val, Val> {
    Ok(bool_val(forall|i: int| 1 <= i < args.len() ==> val_eq(#[trigger] args[i], args[0])))
}

/// The host operation `=`.
#[allow(clippy::needless_pass_by_value)]
pub fn eq(args: Vec<Value>, _env: Env) -> (res: Result<Value, Value>)
    ensures
        result_val(res) == eq_spec(vals(args@)),
{
    let mut i: usize = 1;
    while i < args.len()
        invariant
            1 <= i,
            forall|j: int| 1 <= j < i && j < args.len() ==> val_eq(#[trigger] vals(args@)[j], vals(args@)[0]),
        decreases args.len() - i,
    {
        if !args[i].equals(&args[0]) {
            assert(!val_eq(vals(args@)[i as int], vals(args@)[0]));
            return Ok(Value::boolean(false));
        }
        i += 1;
    }
    Ok(Value::boolean(true))
}

/// The four order relations on integers.
#[derive(Clone, Copy, Debug, PartialEq, Eq, Structural)]
pub enum Relation {
    Less,
    LessEq,
    Greater,
    GreaterEq,
}

/// Whether the relation holds of `a` and `b`.
pub open spec fn holds(rel: Relation, a: int, b: int) -> bool {
    match rel {
        Relation::Less => a < b,
        Relation::LessEq => a <= b,
        Relation::Greater => a > b,
        Relation::GreaterEq => a >= b,
    }
}

/// The order relations take exactly two integers; anything else is
/// `InvalidArgs`.
pub open spec fn relation_spec(rel: Relation, args: Seq<Val>) -> Result<Val, Val> {
    if args.len() == 2 && args[0] is Int && args[1] is Int {
        Ok(bool_val(holds(rel, args[0]->Int_0 as int, args[1]->Int_0 as int)))
    } else {
        Err(error_val("InvalidArgs"@, args))
    }
}

fn relation(rel: Relation, args: Vec<Value>) -> (res: Result<Value, Value>)
    ensures
        result_val(res) == relation_spec(rel, vals(args@)),
{
    if args.len() == 2 {
        if let Value::Int(a) = &args[0] {
            if let Value::Int(b) = &args[1] {
                let r = match rel {
                    Relation::Less => *a < *b,
                    Relation::LessEq => *a <= *b,
                    Relation::Greater => *a > *b,
                    Relation::GreaterEq => *a >= *b,
                };
                return Ok(Value::boolean(r));
            }
        }
    }
    Err(Value::error("InvalidArgs", args))
}

/// The host operation `<`.
pub fn lt(args: Vec<Value>, _env: Env) -> (res: Result<Value, Value>)
    ensures
        result_val(res) == relation_spec(Relation::Less, vals(args@)),
{
    relation(Relation::Less, args)
}

/// The host operation `<=`.
pub fn le(args: Vec<Value>, _env: Env) -> (res: Result<Value, Value>)
    ensures
        result_val(res) == relation_spec(Relation::LessEq, vals(args@)),
{
    relation(Relation::LessEq, args)
}

/// The host operation `>`.
pub fn gt(args: Vec<Value>, _env: Env) -> (res: Result<Value, Value>)
    ensures
        result_val(res) == relation_spec(Relation::Greater, vals(args@)),
{
    relation(Relation::Greater, args)
}

/// The host operation `>=`.
pub fn ge(args: Vec<Value>, _env: Env) -> (res: Result<Value, Value>)
    ensures
        result_val(res) == relation_spec(Relation::GreaterEq, vals(args@)),
{
    relation(Relation::GreaterEq, args)
}

/// `not`: of one argument, whether it is not truthy.
pub open spec fn not_spec(args: Seq<Val>) -> Result<Val, Val> {
    if args.len() == 1 {
        Ok(bool_val(!truthy(args[0])))
    } else {
        Err(error_val("InvalidArgs"@, args))
    }
}

/// The host operation `not`.
pub fn not(args: Vec<Value>, _env: Env) -> (res: Result<Value, Value>)
    ensures
        result_val(res) == not_spec(vals(args@)),
{
    if args.len() == 1 {
        Ok(Value::boolean(!args[0].is_truthy()))
    } else {
        Err(Value::error("InvalidArgs", args))
    }
}

/// The name of a value's type. The symbols `true` and `false` are of type
/// `bool`, the symbol `nil` of type `nil`, and a list that starts with the
/// symbol `err` of type `err`.
pub open spec fn type_of(v: Val) -> Seq<char> {
    match v {
        Val::Int(_) => "int"@,
        Val::Str(_) => "string"@,
        Val::Symbol(s) => if s == "true"@ || s == "false"@ {
            "bool"@
        } else if s == "nil"@ {
            "nil"@
        } else {
            "symbol"@
        },
        Val::List(items) => if items.len() > 0 && items[0] == Val::Symbol("err"@) {
            "err"@
        } else {
            "list"@
        },
        Val::Table(_) => "table"@,
        Val::Function { is_macro, .. } => if is_macro {
            "macro"@
        } else {
            "function"@
        },
        Val::Lambda { is_macro, .. } => if is_macro {
            "macro"@
        } else {
            "function"@
        },
        Val::Atom(_) => "atom"@,
    }
}

/// `type`: of one argument, the symbol that names its type.
pub open spec fn typ_spec(args: Seq<Val>) -> Result<Val, Val> {
    if args.len() == 1 {
        Ok(Val::Symbol(type_of(args[0])))
    } else {
        Err(error_val("InvalidArgs"@, args))
    }
}

fn name_of_type(v: &Value) -> (r: &'static str)
    ensures
        r@ == type_of(v@),
{
    match v {
        Value::Int(_) => "int",
        Value::String(_) => "string",
        Value::Symbol(_) => {
            if v.is_symbol("true") || v.is_symbol("false") {
                "bool"
            } else if v.is_symbol("nil") {
                "nil"
            } else {
                "symbol"
            }
        },
        Value::List(items) => {
            if items.len() > 0 && items[0].is_symbol("err") {
                "err"
            } else {
                "list"
            }
        },
        Value::Table(_) => "table",
        Value::Function { is_macro, .. } => if *is_macro {
            "macro"
        } else {
            "function"
        },
        Value::Lambda { is_macro, .. } => if *is_macro {
            "macro"
        } else {
            "function"
        },
        Value::Atom(_) => "atom",
    }
}

/// The host operation `type`.
pub fn typ(args: Vec<Value>, _env: Env) -> (res: Result<Value, Value>)
    ensures
        result_val(res) == typ_spec(vals(args@)),
{
    if args.len() != 1 {
        return Err(Value::error("InvalidArgs", args));
    }
    Ok(Value::symbol(name_of_type(&args[0])))
}

/// The name that a type tag stands for.
pub open spec fn tag_name(tag: TypeTag) -> Seq<char> {
    match tag {
        TypeTag::Int => "int"@,
        TypeTag::String => "string"@,
        TypeTag::Symbol => "symbol"@,
        TypeTag::Bool => "bool"@,
        TypeTag::Nil => "nil"@,
        TypeTag::List => "list"@,
        TypeTag::Error => "err"@,
        TypeTag::Table => "table"@,
        TypeTag::Function => "function"@,
        TypeTag::Macro => "macro"@,
        TypeTag::Atom => "atom"@,
    }
}

impl TypeTag {
    /// The name of the type, as `type` gives it.
    pub fn name(self) -> (r: &'static str)
        ensures
            r@ == tag_name(self),
    {
        match self {
            TypeTag::Int => "int",
            TypeTag::String => "string",
            TypeTag::Symbol => "symbol",
            TypeTag::Bool => "bool",
            TypeTag::Nil => "nil",
            TypeTag::List => "list",
            TypeTag::Error => "err",
            TypeTag::Table => "table",
            TypeTag::Function => "function",
            TypeTag::Macro => "macro",
            TypeTag::Atom => "atom",
        }
    }
}

/// The predicates `int?`, `list?` and so on: of one argument, whether its
/// type has the given name.
pub open spec fn type_is_spec(name: Seq<char>, args: Seq<Val>) -> Result<Val, Val> {
    if args.len() == 1 {
        Ok(bool_val(type_of(args[0]) == name))
    } else {
        Err(error_val("InvalidArgs"@, args))
    }
}

/// The host operations `int?`, `list?` and so on: whether the type of the
/// argument has the given name.
pub fn type_is(name: &str, args: Vec<Value>, _env: Env) -> (res: Result<Value, Value>)
    ensures
        result_val(res) == type_is_spec(name@, vals(args@)),
{
    if args.len() != 1 {
        return Err(Value::error("InvalidArgs", args));
    }
    let found = Value::symbol(name_of_type(&args[0]));
    Ok(Value::boolean(found.is_symbol(name)))
}

/// `list`: the list of the arguments.
pub open spec fn list_spec(args: Seq<Val>) -> Result<Val, Val> {
    Ok(Val::List(args))
}

/// The host operation `list`.
pub fn list(args: Vec<Value>, _env: Env) -> (res: Result<Value, Value>)
    ensures
        result_val(res) == list_spec(vals(args@)),
{
    Ok(Value::List(args))
}

/// `first`: the first element of a list, the first character of a string as
/// a string, `nil` of what is empty and of `nil`.
pub open spec fn first_spec(args: Seq<Val>) -> Result<Val, Val> {
    if args.len() != 1 {
        Err(error_val("InvalidArgs"@, args))
    } else {
        match args[0] {
            Val::List(l) => Ok(
                if l.len() > 0 {
                    l[0]
                } else {
                    nil_val()
                },
            ),
            Val::Str(s) => Ok(
                if s.len() > 0 {
                    Val::Str(seq![s[0]])
                } else {
                    nil_val()
                },
            ),
            other => if other == nil_val() {
                Ok(other)
            } else {
                Err(error_val("InvalidArgs"@, seq![other]))
            },
        }
    }
}

/// The host operation `first`.
pub fn first(args: Vec<Value>, _env: Env) -> (res: Result<Value, Value>)
    ensures
        result_val(res) == first_spec(vals(args@)),
{
    if args.len() != 1 {
        return Err(Value::error("InvalidArgs", args));
    }
    match &args[0] {
        Value::List(l) => {
            if l.len() > 0 {
                Ok(l[0].clone())
            } else {
                Ok(Value::nil())
            }
        },
        Value::String(s) => {
            let chars = to_chars(s.as_str());
            if chars.len() > 0 {
                Ok(Value::String(char_string(chars[0])))
            } else {
                Ok(Value::nil())
            }
        },
        other => {
            if other.is_symbol("nil") {
                Ok(other.clone())
            } else {
                Err(Value::error("InvalidArgs", one(other.clone())))
            }
        },
    }
}

/// `last`: the last element of a list, the last character of a string as a
/// string, `nil` of what is empty and of `nil`.
pub open spec fn last_spec(args: Seq<Val>) -> Result<Val, Val> {
    if args.len() != 1 {
        Err(error_val("InvalidArgs"@, args))
    } else {
        match args[0] {
            Val::List(l) => Ok(
                if l.len() > 0 {
                    l.last()
                } else {
                    nil_val()
                },
            ),
            Val::Str(s) => Ok(
                if s.len() > 0 {
                    Val::Str(seq![s.last()])
                } else {
                    nil_val()
                },
            ),
            other => if other == nil_val() {
                Ok(other)
            } else {
                Err(error_val("InvalidArgs"@, seq![other]))
            },
        }
    }
}

/// The host operation `last`.
pub fn last(args: Vec<Value>, _env: Env) -> (res: Result<Value, Value>)
    ensures
        result_val(res) == last_spec(vals(args@)),
{
    if args.len() != 1 {
        return Err(Value::error("InvalidArgs", args));
    }
    match &args[0] {
        Value::List(l) => {
            if l.len() > 0 {
                Ok(l[l.len() - 1].clone())
            } else {
                Ok(Value::nil())
            }
        },
        Value::String(s) => {
            let chars = to_chars(s.as_str());
            if chars.len() > 0 {
                Ok(Value::String(char_string(chars[chars.len() - 1])))
            } else {
                Ok(Value::nil())
            }
        },
        other => {
            if other.is_symbol("nil") {
                Ok(other.clone())
            } else {
                Err(Value::error("InvalidArgs", one(other.clone())))
            }
        },
    }
}

/// A sequence without its first element; the empty sequence stays empty.
pub open spec fn tail<T>(s: Seq<T>) -> Seq<T> {
    if s.len() == 0 {
        s
    } else {
        s.subrange(1, s.len() as int)
    }
}

/// `rest`: a list without its first element, a string without its first
/// character, `nil` of `nil`.
pub open spec fn rest_spec(args: Seq<Val>) -> Result<Val, Val> {
    if args.len() != 1 {
        Err(error_val("InvalidArgs"@, args))
    } else {
        match args[0] {
            Val::List(l) => Ok(Val::List(tail(l))),
            Val::Str(s) => Ok(Val::Str(tail(s))),
            other => if other == nil_val() {
                Ok(other)
            } else {
                Err(error_val("NotAList"@, seq![other]))
            },
        }
    }
}

/// The host operation `rest`.
pub fn rest(args: Vec<Value>, _env: Env) -> (res: Result<Value, Value>)
    ensures
        result_val(res) == rest_spec(vals(args@)),
{
    if args.len() != 1 {
        return Err(Value::error("InvalidArgs", args));
    }
    match &args[0] {
        Value::List(l) => {
            if l.len() == 0 {
                let empty: Vec<Value> = Vec::new();
                assert(vals(empty@) =~= tail(vals(l@)));
                Ok(Value::List(empty))
            } else {
                Ok(Value::List(clone_range(l, 1, l.len())))
            }
        },
        Value::String(s) => {
            let chars = to_chars(s.as_str());
            if chars.len() == 0 {
                let empty = String::new();
                assert(empty@ =~= tail(s@));
                Ok(Value::String(empty))
            } else {
                Ok(Value::String(string_of(&chars, 1, chars.len())))
            }
        },
        other => {
            if other.is_symbol("nil") {
                Ok(other.clone())
            } else {
                Err(Value::error("NotAList", one(other.clone())))
            }
        },
    }
}

/// `nth`: the element of a list, or the character of a string as a string,
/// at an index that counts from 0.
pub open spec fn nth_spec(args: Seq<Val>) -> Result<Val, Val> {
    if args.len() != 2 {
        Err(error_val("InvalidArgs"@, args))
    } else if !(args[1] is Int) {
        Err(error_val("NotANumber"@, seq![args[1]]))
    } else {
        let i = args[1]->Int_0 as int;
        match args[0] {
            Val::List(l) => if 0 <= i < l.len() {
                Ok(l[i])
            } else {
                Err(error_val("InvalidIndex"@, seq![args[0], args[1]]))
            },
            Val::Str(s) => if 0 <= i < s.len() {
                Ok(Val::Str(seq![s[i]]))
            } else {
                Err(error_val("InvalidIndex"@, seq![args[0], args[1]]))
            },
            other => Err(error_val("NotAList"@, seq![other])),
        }
    }
}

/// The host operation `nth`.
pub fn nth(args: Vec<Value>, _env: Env) -> (res: Result<Value, Value>)
    ensures
        result_val(res) == nth_spec(vals(args@)),
{
    if args.len() != 2 {
        return Err(Value::error("InvalidArgs", args));
    }
    let i: i32 = match &args[1] {
        Value::Int(i) => *i,
        other => {
            return Err(Value::error("NotANumber", one(other.clone())));
        },
    };
    match &args[0] {
        Value::List(l) => {
            if i >= 0 && (i as usize) < l.len() {
                Ok(l[i as usize].clone())
            } else {
                Err(Value::error("InvalidIndex", two(args[0].clone(), args[1].clone())))
            }
        },
        Value::String(s) => {
            let chars = to_chars(s.as_str());
            if i >= 0 && (i as usize) < chars.len() {
                Ok(Value::String(char_string(chars[i as usize])))
            } else {
                Err(Value::error("InvalidIndex", two(args[0].clone(), args[1].clone())))
            }
        },
        other => Err(Value::error("NotAList", one(other.clone()))),
    }
}

/// What goes with an `Overflow` error besides the number.
pub open spec fn overflow_note() -> Seq<char> {
    "out of range integral type conversion attempted"@
}

/// `count`: the number of elements of a list, of characters of a string, of
/// entries of a table; `Overflow` where it is no 32-bit integer.
pub open spec fn count_spec(args: Seq<Val>) -> Result<Val, Val> {
    if args.len() != 1 {
        Err(error_val("InvalidArgs"@, args))
    } else if !(args[0] is List || args[0] is Str || args[0] is Table) {
        Err(error_val("NotASequence"@, seq![args[0]]))
    } else {
        let n: nat = match args[0] {
            Val::List(l) => l.len(),
            Val::Str(s) => s.len(),
            Val::Table(t) => t.len(),
            _ => 0,
        };
        if n <= i32::MAX {
            Ok(Val::Int(n as i32))
        } else {
            Err(error_val("Overflow"@, seq![Val::Str(decimal(n as int)), Val::Str(overflow_note())]))
        }
    }
}

/// The host operation `count`.
pub fn count(args: Vec<Value>, _env: Env) -> (res: Result<Value, Value>)
    ensures
        result_val(res) == count_spec(vals(args@)),
{
    if args.len() != 1 {
        return Err(Value::error("InvalidArgs", args));
    }
    let n: usize = match &args[0] {
        Value::List(l) => l.len(),
        Value::String(s) => s.as_str().unicode_len(),
        Value::Table(t) => t.len(),
        other => {
            return Err(Value::error("NotASequence", one(other.clone())));
        },
    };
    if n <= 2147483647 {
        Ok(Value::Int(n as i32))
    } else {
        let mut text = String::new();
        push_decimal_nat(&mut text, n as u64);
        assert(text@ == decimal(n as int));
        Err(
            Value::error(
                "Overflow",
                two(
                    Value::String(text),
                    Value::String("out of range integral type conversion attempted".to_owned()),
                ),
            ),
        )
    }
}

/// `cons`: the list `l` with `e` in front.
pub open spec fn cons_spec(args: Seq<Val>) -> Result<Val, Val> {
    if args.len() == 2 && args[1] is List {
        Ok(Val::List(seq![args[0]] + args[1]->List_0))
    } else {
        Err(error_val("InvalidArgs"@, args))
    }
}

/// The host operation `cons`.
pub fn cons(args: Vec<Value>, _env: Env) -> (res: Result<Value, Value>)
    ensures
        result_val(res) == cons_spec(vals(args@)),
{
    if args.len() == 2 {
        if let Value::List(l) = &args[1] {
            return Ok(Value::List(prepend(args[0].clone(), l)));
        }
    }
    Err(Value::error("InvalidArgs", args))
}

/// The display forms of the values, one after the other.
pub open spec fn concat_shown(args: Seq<Val>) -> Seq<char>
    decreases args.len(),
{
    if args.len() == 0 {
        Seq::empty()
    } else {
        concat_shown(args.drop_last()) + show(args.last(), false)
    }
}

/// `str`: the display forms of the arguments as one string.
pub open spec fn str_spec(args: Seq<Val>) -> Result<Val, Val> {
    Ok(Val::Str(concat_shown(args)))
}

/// The host operation `str`.
pub fn str(args: Vec<Value>, _env: Env) -> (res: Result<Value, Value>)
    ensures
        result_val(res) == str_spec(vals(args@)),
{
    let mut out = String::new();
    let mut i: usize = 0;
    while i < args.len()
        invariant
            i <= args.len(),
            out@ == concat_shown(vals(args@).take(i as int)),
        decreases args.len() - i,
    {
        args[i].render(false, &mut out);
        i += 1;
        assert(vals(args@).take(i as int).drop_last() == vals(args@).take(i - 1));
    }
    assert(vals(args@).take(i as int) == vals(args@));
    Ok(Value::String(out))
}

/// `symbol`: the symbol whose name is the given string.
pub open spec fn symbol_spec(args: Seq<Val>) -> Result<Val, Val> {
    if args.len() == 1 && args[0] is Str {
        Ok(Val::Symbol(args[0]->Str_0))
    } else {
        Err(error_val("InvalidArgs"@, args))
    }
}

/// The host operation `symbol`.
pub fn symbol(args: Vec<Value>, _env: Env) -> (res: Result<Value, Value>)
    ensures
        result_val(res) == symbol_spec(vals(args@)),
{
    if args.len() == 1 {
        if let Value::String(s) = &args[0] {
            return Ok(Value::Symbol(s.clone()));
        }
    }
    Err(Value::error("InvalidArgs", args))
}

/// `char::from_u32` gives the character with the given code point, and
/// nothing for a surrogate or a number above the last code point.
pub assume_specification[ char::from_u32 ](i: u32) -> (r: Option<char>)
    ensures
        r is Some <==> is_scalar(i as int),
        r matches Some(c) ==> c as int == i as int,
;

/// Whether a number is the code point of a character.
pub open spec fn is_scalar(i: int) -> bool {
    0 <= i <= 0xD7FF || 0xE000 <= i <= 0x10FFFF
}

/// `chr`: the string of the one character with the given code point.
pub open spec fn chr_spec(args: Seq<Val>) -> Result<Val, Val> {
    if args.len() == 1 && args[0] is Int {
        let i = args[0]->Int_0;
        if is_scalar(i as int) {
            Ok(Val::Str(seq![i as char]))
        } else {
            Err(error_val("InvalidChar"@, seq![args[0]]))
        }
    } else {
        Err(error_val("InvalidArgs"@, args))
    }
}

/// The host operation `chr`.
pub fn chr(args: Vec<Value>, _env: Env) -> (res: Result<Value, Value>)
    ensures
        result_val(res) == chr_spec(vals(args@)),
{
    if args.len() == 1 {
        if let Value::Int(i) = &args[0] {
            if *i >= 0 {
                let u: u32 = *i as u32;
                assert(u as int == *i as int);
                if let Some(c) = char::from_u32(u) {
                    assert(c as int == *i as int);
                    assert(c == (*i as char));
                    return Ok(Value::String(char_string(c)));
                }
            }
            return Err(Value::error("InvalidChar", one(Value::Int(*i))));
        }
    }
    Err(Value::error("InvalidArgs", args))
}

/// The symbol name that tells why a text is no integer.
pub open spec fn failure_name(f: IntFailure) -> Seq<char> {
    match f {
        IntFailure::Empty => "EmptyString"@,
        IntFailure::InvalidDigit => "InvalidDigit"@,
        IntFailure::PosOverflow => "PositiveOverflow"@,
        IntFailure::NegOverflow => "NegativeOverflow"@,
    }
}

/// `int`: the integer that a string denotes in decimal; an integer stays as
/// it is.
pub open spec fn to_int_spec(args: Seq<Val>) -> Result<Val, Val> {
    if args.len() != 1 {
        Err(error_val("InvalidArgs"@, args))
    } else {
        match args[0] {
            Val::Int(i) => Ok(args[0]),
            Val::Str(s) => match read_i32(s) {
                Ok(i) => Ok(Val::Int(i)),
                Err(f) => Err(
                    error_val("ParseError"@, seq![args[0], Val::Symbol(failure_name(f))]),
                ),
            },
            other => Err(error_val("InvalidArgs"@, seq![other])),
        }
    }
}

/// The host operation `int`.
pub fn to_int(args: Vec<Value>, _env: Env) -> (res: Result<Value, Value>)
    ensures
        result_val(res) == to_int_spec(vals(args@)),
{
    if args.len() != 1 {
        return Err(Value::error("InvalidArgs", args));
    }
    match &args[0] {
        Value::Int(i) => Ok(Value::Int(*i)),
        Value::String(s) => match parse_i32(s.as_str()) {
            Ok(i) => Ok(Value::Int(i)),
            Err(f) => {
                let name = match f {
                    IntFailure::Empty => "EmptyString",
                    IntFailure::InvalidDigit => "InvalidDigit",
                    IntFailure::PosOverflow => "PositiveOverflow",
                    IntFailure::NegOverflow => "NegativeOverflow",
                };
                Err(Value::error("ParseError", two(args[0].clone(), Value::symbol(name))))
            },
        },
        other => Err(Value::error("InvalidArgs", one(other.clone()))),
    }
}

/// `macro`: the function or lambda with its macro flag set.
pub open spec fn as_macro_spec(args: Seq<Val>) -> Result<Val, Val> {
    if args.len() != 1 {
        Err(error_val("InvalidArgs"@, args))
    } else {
        match args[0] {
            Val::Function { fn_ref, is_macro } => Ok(Val::Function { fn_ref, is_macro: true }),
            Val::Lambda { args: params, body, captures, is_macro } => Ok(
                Val::Lambda { args: params, body, captures, is_macro: true },
            ),
            other => Err(error_val("NotAFunction"@, seq![other])),
        }
    }
}

/// The host operation `macro`.
pub fn as_macro(args: Vec<Value>, _env: Env) -> (res: Result<Value, Value>)
    ensures
        result_val(res) == as_macro_spec(vals(args@)),
{
    if args.len() != 1 {
        return Err(Value::error("InvalidArgs", args));
    }
    match &args[0] {
        Value::Function { fn_ref, is_macro } => Ok(
            Value::Function { fn_ref: *fn_ref, is_macro: true },
        ),
        Value::Lambda { args: params, body, captures, is_macro } => Ok(
            Value::Lambda {
                args: Box::new((&**params).clone()),
                body: Box::new((&**body).clone()),
                captures: *captures,
                is_macro: true,
            },
        ),
        other => Err(Value::error("NotAFunction", one(other.clone()))),
    }
}

/// The entries with each pair of `args` from index `i` on put in: a key, then
/// its value.
pub open spec fn insert_pairs(entries: Seq<(Val, Val)>, args: Seq<Val>, i: int) -> Seq<(Val, Val)>
    decreases args.len() - i,
{
    if i < 0 || i + 1 >= args.len() {
        entries
    } else {
        insert_pairs(table_insert(entries, args[i], args[i + 1]), args, i + 2)
    }
}

/// `assoc`: the table with the keys and values that follow it put in. The
/// number of arguments is odd and the first is a table.
pub open spec fn assoc_spec(args: Seq<Val>) -> Result<Val, Val> {
    if args.len() % 2 == 0 {
        Err(error_val("InvalidArgs"@, args))
    } else if !(args[0] is Table) {
        Err(error_val("NotATable"@, seq![args[0]]))
    } else {
        Ok(Val::Table(insert_pairs(args[0]->Table_0, args, 1)))
    }
}

/// The host operation `assoc`.
pub fn assoc(args: Vec<Value>, _env: Env) -> (res: Result<Value, Value>)
    ensures
        result_val(res) == assoc_spec(vals(args@)),
{
    if args.len() % 2 == 0 {
        return Err(Value::error("InvalidArgs", args));
    }
    let mut table = match &args[0] {
        Value::Table(t) => clone_entries(t),
        other => {
            return Err(Value::error("NotATable", one(other.clone())));
        },
    };
    let mut i: usize = 1;
    while args.len() - i > 1
        invariant
            1 <= i <= args.len(),
            args.len() % 2 == 1,
            i % 2 == 1,
            vals(args@)[0] is Table,
            insert_pairs(entry_vals(table@), vals(args@), i as int) == insert_pairs(
                vals(args@)[0]->Table_0,
                vals(args@),
                1,
            ),
        decreases args.len() - i,
    {
        insert_entry(&mut table, args[i].clone(), args[i + 1].clone());
        i += 2;
    }
    Ok(Value::Table(table))
}

/// The entries without those of the keys `args[i..]`.
pub open spec fn remove_keys(entries: Seq<(Val, Val)>, args: Seq<Val>, i: int) -> Seq<(Val, Val)>
    decreases args.len() - i,
{
    if i < 0 || i >= args.len() {
        entries
    } else {
        remove_keys(table_remove(entries, args[i]), args, i + 1)
    }
}

/// `dissoc`: the table without the keys that follow it. There is at least
/// one key, and the first argument is a table.
pub open spec fn dissoc_spec(args: Seq<Val>) -> Result<Val, Val> {
    if args.len() <= 1 {
        Err(error_val("InvalidArgs"@, args))
    } else if !(args[0] is Table) {
        Err(error_val("NotATable"@, seq![args[0]]))
    } else {
        Ok(Val::Table(remove_keys(args[0]->Table_0, args, 1)))
    }
}

/// The host operation `dissoc`.
pub fn dissoc(args: Vec<Value>, _env: Env) -> (res: Result<Value, Value>)
    ensures
        result_val(res) == dissoc_spec(vals(args@)),
{
    if args.len() <= 1 {
        return Err(Value::error("InvalidArgs", args));
    }
    let mut table = match &args[0] {
        Value::Table(t) => clone_entries(t),
        other => {
            return Err(Value::error("NotATable", one(other.clone())));
        },
    };
    let mut i: usize = 1;
    while i < args.len()
        invariant
            1 <= i <= args.len(),
            vals(args@)[0] is Table,
            remove_keys(entry_vals(table@), vals(args@), i as int) == remove_keys(
                vals(args@)[0]->Table_0,
                vals(args@),
                1,
            ),
        decreases args.len() - i,
    {
        remove_entry(&mut table, &args[i]);
        i += 1;
    }
    Ok(Value::Table(table))
}

/// `get`: the value of a key in a table, `nil` where the table has no such
/// key.
pub open spec fn get_spec(args: Seq<Val>) -> Result<Val, Val> {
    if args.len() == 2 && args[0] is Table {
        Ok(
            match table_get(args[0]->Table_0, args[1]) {
                Some(v) => v,
                None => nil_val(),
            },
        )
    } else {
        Err(error_val("InvalidArgs"@, args))
    }
}

/// The host operation `get`.
pub fn get(args: Vec<Value>, _env: Env) -> (res: Result<Value, Value>)
    ensures
        result_val(res) == get_spec(vals(args@)),
{
    if args.len() == 2 {
        if let Value::Table(t) = &args[0] {
            return match find_entry(t, &args[1]) {
                Some(i) => Ok(t[i].1.clone()),
                None => Ok(Value::nil()),
            };
        }
    }
    Err(Value::error("InvalidArgs", args))
}

/// The keys of the entries, in their order.
pub open spec fn entry_keys(entries: Seq<(Val, Val)>) -> Seq<Val> {
    Seq::new(entries.len(), |i: int| entries[i].0)
}

/// The values of the entries, in their order.
pub open spec fn entry_values(entries: Seq<(Val, Val)>) -> Seq<Val> {
    Seq::new(entries.len(), |i: int| entries[i].1)
}

/// `keys`: the keys of a table as a list, in the order in which they came
/// in.
pub open spec fn keys_spec(args: Seq<Val>) -> Result<Val, Val> {
    if args.len() == 1 && args[0] is Table {
        Ok(Val::List(entry_keys(args[0]->Table_0)))
    } else {
        Err(error_val("InvalidArgs"@, args))
    }
}

/// `values`: the values of a table as a list, in the order of its keys.
pub open spec fn values_spec(args: Seq<Val>) -> Result<Val, Val> {
    if args.len() == 1 && args[0] is Table {
        Ok(Val::List(entry_values(args[0]->Table_0)))
    } else {
        Err(error_val("InvalidArgs"@, args))
    }
}

fn project(t: &Vec<(Value, Value)>, second: bool) -> (res: Vec<Value>)
    ensures
        vals(res@) == (if second {
            entry_values(entry_vals(t@))
        } else {
            entry_keys(entry_vals(t@))
        }),
{
    let mut out: Vec<Value> = Vec::new();
    let mut i: usize = 0;
    while i < t.len()
        invariant
            i <= t.len(),
            out.len() == i,
            forall|j: int|
                0 <= j < i ==> out@[j]@ == (if second {
                    t@[j].1@
                } else {
                    t@[j].0@
                }),
        decreases t.len() - i,
    {
        if second {
            out.push(t[i].1.clone());
        } else {
            out.push(t[i].0.clone());
        }
        i += 1;
    }
    if second {
        assert(vals(out@) =~= entry_values(entry_vals(t@)));
    } else {
        assert(vals(out@) =~= entry_keys(entry_vals(t@)));
    }
    out
}

/// The host operation `keys`.
pub fn keys(args: Vec<Value>, _env: Env) -> (res: Result<Value, Value>)
    ensures
        result_val(res) == keys_spec(vals(args@)),
{
    if args.len() == 1 {
        if let Value::Table(t) = &args[0] {
            return Ok(Value::List(project(t, false)));
        }
    }
    Err(Value::error("InvalidArgs", args))
}

/// The host operation `values`.
pub fn values(args: Vec<Value>, _env: Env) -> (res: Result<Value, Value>)
    ensures
        result_val(res) == values_spec(vals(args@)),
{
    if args.len() == 1 {
        if let Value::Table(t) = &args[0] {
            return Ok(Value::List(project(t, true)));
        }
    }
    Err(Value::error("InvalidArgs", args))
}

/// `contains?`: whether a table has a key.
pub open spec fn contains_spec(args: Seq<Val>) -> Result<Val, Val> {
    if args.len() == 2 && args[0] is Table {
        Ok(bool_val(find_key(args[0]->Table_0, args[1], 0) is Some))
    } else {
        Err(error_val("InvalidArgs"@, args))
    }
}

/// The host operation `contains?`.
pub fn contains(args: Vec<Value>, _env: Env) -> (res: Result<Value, Value>)
    ensures
        result_val(res) == contains_spec(vals(args@)),
{
    if args.len() == 2 {
        if let Value::Table(t) = &args[0] {
            return Ok(Value::boolean(find_entry(t, &args[1]).is_some()));
        }
    }
    Err(Value::error("InvalidArgs", args))
}

/// Why a pattern is no regular expression that can be used.
pub enum RegexFailure {
    /// The compiled pattern would pass the size limit, which is given.
    TooBig(usize),
    /// The pattern is ill-formed; the message says where.
    Syntax(String),
    /// Anything else.
    Other,
}

/// The model of a `RegexFailure`.
pub enum RegexFailureV {
    TooBig(usize),
    Syntax(Seq<char>),
    Other,
}

/// The model of what a search gives: for each match, in the order of the
/// haystack, the text of each group, and nothing for a group that took no
/// part in the match; or why the pattern could not be used.
pub open spec fn search_view(r: Result<Vec<Vec<Option<String>>>, RegexFailure>) -> Result<
    Seq<Seq<Option<Seq<char>>>>,
    RegexFailureV,
> {
    match r {
        Ok(ms) => Ok(ms.deep_view()),
        Err(RegexFailure::TooBig(n)) => Err(RegexFailureV::TooBig(n)),
        Err(RegexFailure::Syntax(msg)) => Err(RegexFailureV::Syntax(msg@)),
        Err(RegexFailure::Other) => Err(RegexFailureV::Other),
    }
}

/// What the search for all matches of `pattern` in `haystack` gives.
pub uninterp spec fn regex_search(pattern: Seq<char>, haystack: Seq<char>) -> Result<
    Seq<Seq<Option<Seq<char>>>>,
    RegexFailureV,
>;

/// Compiles the pattern with `regex::Regex::new` and walks the haystack with
/// `captures_iter`. The contract only gives the outcome a name: it depends on
/// the pattern and the haystack alone, and nothing more is claimed of it.
#[verifier::external_body]
fn search(pattern: &str, haystack: &str) -> (r: Result<Vec<Vec<Option<String>>>, RegexFailure>)
    ensures
        search_view(r) == regex_search(pattern@, haystack@),
{
    match regex::Regex::new(pattern) {
        Ok(re) => Ok(
            re.captures_iter(haystack).map(
                |m| m.iter().map(|g| g.map(|t| t.as_str().to_string())).collect(),
            ).collect(),
        ),
        Err(regex::Error::CompiledTooBig(n)) => Err(RegexFailure::TooBig(n)),
        Err(regex::Error::Syntax(msg)) => Err(RegexFailure::Syntax(msg)),
        Err(_) => Err(RegexFailure::Other),
    }
}

/// The texts of the groups that took part in a match, as strings.
pub open spec fn present_groups(m: Seq<Option<Seq<char>>>) -> Seq<Val>
    decreases m.len(),
{
    if m.len() == 0 {
        Seq::empty()
    } else {
        present_groups(m.drop_last()) + (match m.last() {
            Some(t) => seq![Val::Str(t)],
            None => seq![],
        })
    }
}

/// One list per match that has a group to show.
pub open spec fn match_rows(ms: Seq<Seq<Option<Seq<char>>>>) -> Seq<Val>
    decreases ms.len(),
{
    if ms.len() == 0 {
        Seq::empty()
    } else {
        let groups = present_groups(ms.last());
        match_rows(ms.drop_last()) + (if groups.len() > 0 {
            seq![Val::List(groups)]
        } else {
            seq![]
        })
    }
}

/// What `findall` makes of a search: the list of the matches' groups, or the
/// error that tells why the pattern could not be used.
pub open spec fn findall_outcome(
    o: Result<Seq<Seq<Option<Seq<char>>>>, RegexFailureV>,
) -> Result<Val, Val> {
    match o {
        Ok(ms) => Ok(Val::List(match_rows(ms))),
        Err(RegexFailureV::TooBig(n)) => Err(
            error_val(
                "RegexTooLong"@,
                seq![
                    if n <= i32::MAX {
                        Val::Int(n as i32)
                    } else {
                        Val::Str(decimal(n as int))
                    },
                ],
            ),
        ),
        Err(RegexFailureV::Syntax(msg)) => Err(error_val("InvalidRegex"@, seq![Val::Str(msg)])),
        Err(RegexFailureV::Other) => Err(error_val("RegexError"@, seq![])),
    }
}

/// Turns the outcome of a search into the value or the error of `findall`.
pub fn findall_result(outcome: Result<Vec<Vec<Option<String>>>, RegexFailure>) -> (res: Result<
    Value,
    Value,
>)
    ensures
        result_val(res) == findall_outcome(search_view(outcome)),
{
    match outcome {
        Ok(ms) => {
            let mut rows: Vec<Value> = Vec::new();
            let mut i: usize = 0;
            while i < ms.len()
                invariant
                    i <= ms.len(),
                    vals(rows@) == match_rows(ms.deep_view().take(i as int)),
                decreases ms.len() - i,
            {
                let m = &ms[i];
                let mut groups: Vec<Value> = Vec::new();
                let mut j: usize = 0;
                while j < m.len()
                    invariant
                        j <= m.len(),
                        vals(groups@) == present_groups(m.deep_view().take(j as int)),
                    decreases m.len() - j,
                {
                    let ghost before = vals(groups@);
                    if let Some(t) = &m[j] {
                        groups.push(Value::String(t.clone()));
                        assert(vals(groups@) =~= before + seq![Val::Str(t@)]);
                    }
                    j += 1;
                    assert(m.deep_view().take(j as int).drop_last() == m.deep_view().take(j - 1));
                    assert(m.deep_view().take(j as int).last() == m@[j - 1].deep_view());
                }
                assert(m.deep_view().take(j as int) == m.deep_view());
                let ghost before = vals(rows@);
                if groups.len() > 0 {
                    rows.push(Value::List(groups));
                    assert(vals(rows@) =~= before + seq![Val::List(present_groups(m.deep_view()))]);
                }
                i += 1;
                assert(ms.deep_view().take(i as int).drop_last() == ms.deep_view().take(i - 1));
                assert(ms.deep_view().take(i as int).last() == m.deep_view());
            }
            assert(ms.deep_view().take(i as int) == ms.deep_view());
            Ok(Value::List(rows))
        },
        Err(RegexFailure::TooBig(n)) => {
            let size = if n <= 2147483647 {
                Value::Int(n as i32)
            } else {
                let mut text = String::new();
                push_decimal_nat(&mut text, n as u64);
                assert(text@ == decimal(n as int));
                Value::String(text)
            };
            Err(Value::error("RegexTooLong", one(size)))
        },
        Err(RegexFailure::Syntax(msg)) => Err(
            Value::error("InvalidRegex", one(Value::String(msg))),
        ),
        Err(RegexFailure::Other) => {
            let context: Vec<Value> = Vec::new();
            assert(vals(context@) =~= seq![]);
            Err(Value::error("RegexError", context))
        },
    }
}

/// `findall`: of a pattern and a haystack, both strings, the list of all
/// matches that do not overlap, each as the list of its groups' texts.
pub open spec fn findall_spec(args: Seq<Val>) -> Result<Val, Val> {
    if args.len() == 2 && args[0] is Str && args[1] is Str {
        findall_outcome(regex_search(args[0]->Str_0, args[1]->Str_0))
    } else {
        Err(error_val("InvalidArgs"@, args))
    }
}

/// The host operation `findall`.
pub fn findall(args: Vec<Value>, _env: Env) -> (res: Result<Value, Value>)
    ensures
        result_val(res) == findall_spec(vals(args@)),
{
    if args.len() == 2 {
        if let Value::String(re) = &args[0] {
            if let Value::String(haystack) = &args[1] {
                return findall_result(search(re.as_str(), haystack.as_str()));
            }
        }
    }
    Err(Value::error("InvalidArgs", args))
}

/// The host operation `atom`.
pub fn atom(args: Vec<Value>, _env: Env, interp: &mut Interp) -> (res: Result<Value, Value>)
    ensures
        (Outcome { result: result_val(res), world: final(interp)@ }) == atom_spec(
            vals(args@),
            old(interp)@,
        ),
{
    if args.len() == 1 {
        let a = interp.alloc_atom(args[0].clone());
        Ok(Value::Atom(a))
    } else {
        Err(Value::error("InvalidArgs", args))
    }
}

/// The host operation `set!`.
pub fn set_atom(args: Vec<Value>, _env: Env, interp: &mut Interp) -> (res: Result<Value, Value>)
    ensures
        (Outcome { result: result_val(res), world: final(interp)@ }) == set_atom_spec(
            vals(args@),
            old(interp)@,
        ),
{
    if args.len() == 2 {
        if let Value::Atom(a) = &args[0] {
            if let Some(before) = interp.atom_value(*a) {
                interp.store_atom(*a, args[1].clone());
                return Ok(before);
            }
        }
    }
    Err(Value::error("InvalidArgs", args))
}

/// The host operation `inspect!`.
pub fn inspect_atom(args: Vec<Value>, env: Env, interp: &mut Interp, fuel: u64) -> (res: Result<
    Value,
    Value,
>)
    ensures
        (Outcome { result: result_val(res), world: final(interp)@ }) == inspect_atom_spec(
            vals(args@),
            env as nat,
            old(interp)@,
            fuel as nat,
        ),
    decreases fuel, 4nat, Val::Int(0), 0nat,
{
    if args.len() == 2 {
        if let Value::Atom(a) = &args[0] {
            if let Some(held) = interp.atom_value(*a) {
                return match apply_value(&args[1], Value::List(one(held)), env, interp, fuel) {
                    Ok(v) => {
                        interp.store_atom(*a, v.clone());
                        Ok(v)
                    },
                    Err(e) => Err(e),
                };
            }
        }
    }
    Err(Value::error("InvalidArgs", args))
}

/// The host operation `print`.
pub fn print(args: Vec<Value>, _env: Env, interp: &mut Interp) -> (res: Result<Value, Value>)
    ensures
        (Outcome { result: result_val(res), world: final(interp)@ }) == print_spec(
            vals(args@),
            old(interp)@,
        ),
{
    let mut line = String::new();
    let mut i: usize = 0;
    while i < args.len()
        invariant
            i <= args.len(),
            line@ == show_items(vals(args@).take(i as int), false),
        decreases args.len() - i,
    {
        if i > 0 {
            line.push(' ');
        }
        args[i].render(false, &mut line);
        proof {
            let items = vals(args@);
            assert(items.take(i + 1).drop_last() == items.take(i as int));
            assert(items.take(i + 1).last() == args@[i as int]@);
        }
        i += 1;
    }
    assert(vals(args@).take(i as int) == vals(args@));
    interp.emit(line);
    Ok(Value::nil())
}

/// The host operation `input`.
#[allow(unused_variables)]
pub fn input(args: Vec<Value>, _env: Env, interp: &mut Interp) -> (res: Result<Value, Value>)
    ensures
        (Outcome { result: result_val(res), world: final(interp)@ }) == input_spec(
            vals(args@),
            old(interp)@,
        ),
{
    Ok(Value::String(interp.next_input()))
}

/// The host operation `doc`.
pub fn doc(args: Vec<Value>, _env: Env, interp: &mut Interp) -> (res: Result<Value, Value>)
    ensures
        (Outcome { result: result_val(res), world: final(interp)@ }) == doc_spec(
            vals(args@),
            old(interp)@,
        ),
{
    if args.len() == 1 {
        if let Value::String(d) = &args[0] {
            interp.keep_doc(d.clone());
            return Ok(Value::nil());
        }
    }
    Err(Value::error("InvalidArgs", args))
}

/// The host operation `help`.
pub fn help(args: Vec<Value>, _env: Env, interp: &Interp) -> (res: Result<Value, Value>)
    ensures
        (Outcome { result: result_val(res), world: interp@ }) == help_spec(vals(args@), interp@),
{
    if args.len() != 1 {
        return Err(Value::error("InvalidArgs", args));
    }
    let found = match &args[0] {
        Value::Symbol(s) => interp.doc_of(s.as_str()),
        Value::String(s) => interp.doc_of(s.as_str()),
        _ => None,
    };
    match found {
        Some(d) => Ok(Value::String(d)),
        None => Ok(Value::nil()),
    }
}

/// The host operation `quit`.
#[allow(unused_variables)]
pub fn quit(args: Vec<Value>, _env: Env, interp: &mut Interp) -> (res: Result<Value, Value>)
    ensures
        (Outcome { result: result_val(res), world: final(interp)@ }) == quit_spec(
            vals(args@),
            old(interp)@,
        ),
{
    interp.request_quit();
    Ok(Value::nil())
}

/// The host operation `eval`.
#[allow(clippy::needless_pass_by_value)]
pub fn eval(args: Vec<Value>, env: Env, interp: &mut Interp, fuel: u64) -> (res: Result<
    Value,
    Value,
>)
    ensures
        (Outcome { result: result_val(res), world: final(interp)@ }) == eval_builtin_spec(
            vals(args@),
            env as nat,
            old(interp)@,
            fuel as nat,
        ),
    decreases fuel, 4nat, Val::Int(0), 0nat,
{
    if args.len() == 1 {
        eval_ref(&args[0], env, interp, fuel)
    } else {
        assert(vals(args@).subrange(0, args.len() as int) =~= vals(args@));
        match eval_all(&args, 0, args.len(), env, interp, fuel) {
            Ok(vs) => Ok(Value::List(vs)),
            Err(e) => Err(e),
        }
    }
}

/// Calls the function value `f` on the list of arguments `arg`.
pub fn apply_value(f: &Value, arg: Value, env: Env, interp: &mut Interp, fuel: u64) -> (res:
    Result<Value, Value>)
    ensures
        (Outcome { result: result_val(res), world: final(interp)@ }) == apply_spec(
            f@,
            arg@,
            env as nat,
            old(interp)@,
            fuel as nat,
        ),
    decreases fuel, 3nat, Val::Int(0), 0nat,
{
    match f {
        Value::Function { fn_ref, is_macro } => {
            if *is_macro {
                return Err(Value::error("NotAFunction", one(f.clone())));
            }
            match arg {
                Value::List(l) => {
                    if fuel == 0 {
                        Err(out_of_steps())
                    } else {
                        call_builtin(*fn_ref, l, env, interp, fuel - 1)
                    }
                },
                other => Err(Value::error("NotAList", one(other))),
            }
        },
        Value::Lambda { args: params, body, captures, is_macro } => {
            if *is_macro {
                return Err(Value::error("NotAFunction", one(f.clone())));
            }
            let child = new_env(*captures, interp);
            if destructure(&**params, arg, child, interp).is_none() {
                return Err(Value::error("PatternMismatch", one((&**params).clone())));
            }
            eval_ref(&**body, child, interp, fuel)
        },
        other => Err(Value::error("NotAFunction", one(other.clone()))),
    }
}

/// The host operation `apply`.
pub fn apply(args: Vec<Value>, env: Env, interp: &mut Interp, fuel: u64) -> (res: Result<
    Value,
    Value,
>)
    ensures
        (Outcome { result: result_val(res), world: final(interp)@ }) == apply_builtin_spec(
            vals(args@),
            env as nat,
            old(interp)@,
            fuel as nat,
        ),
    decreases fuel, 4nat, Val::Int(0), 0nat,
{
    if args.len() != 2 {
        return Err(Value::error("InvalidArgs", args));
    }
    apply_value(&args[0], args[1].clone(), env, interp, fuel)
}

/// `f` called on each of the items in turn.
fn map_each(f: &Value, items: &Vec<Value>, env: Env, interp: &mut Interp, fuel: u64) -> (res:
    Result<Value, Value>)
    ensures
        (Outcome { result: result_val(res), world: final(interp)@ }) == map_items(
            f@,
            vals(items@),
            0,
            seq![],
            env as nat,
            old(interp)@,
            fuel as nat,
        ),
    decreases fuel, 4nat, Val::Int(0), 0nat,
{
    let mut out: Vec<Value> = Vec::new();
    assert(vals(out@) =~= seq![]);
    let mut i: usize = 0;
    while i < items.len()
        invariant
            i <= items.len(),
            map_items(f@, vals(items@), i as int, vals(out@), env as nat, interp@, fuel as nat)
                == map_items(
                f@,
                vals(items@),
                0,
                seq![],
                env as nat,
                old(interp)@,
                fuel as nat,
            ),
        decreases items.len() - i,
    {
        let ghost before = vals(out@);
        match apply_value(f, Value::List(one(items[i].clone())), env, interp, fuel) {
            Ok(v) => {
                out.push(v);
                assert(vals(out@) =~= before.push(v@));
            },
            Err(e) => {
                return Err(e);
            },
        }
        i += 1;
    }
    Ok(Value::List(out))
}

/// `map`: the list of what a function gives for each element of a list, or
/// for each character of a string.
pub fn map_over(args: Vec<Value>, env: Env, interp: &mut Interp, fuel: u64) -> (res: Result<
    Value,
    Value,
>)
    ensures
        (Outcome { result: result_val(res), world: final(interp)@ }) == map_spec(
            vals(args@),
            env as nat,
            old(interp)@,
            fuel as nat,
        ),
    decreases fuel, 5nat, Val::Int(0), 0nat,
{
    if args.len() != 2 {
        return Err(Value::error("InvalidArgs", args));
    }
    match &args[1] {
        Value::List(l) => map_each(&args[0], l, env, interp, fuel),
        Value::String(s) => {
            let chars = to_chars(s.as_str());
            let mut items: Vec<Value> = Vec::new();
            let mut i: usize = 0;
            while i < chars.len()
                invariant
                    i <= chars.len(),
                    items.len() == i,
                    forall|j: int| 0 <= j < i ==> items@[j]@ == Val::Str(seq![chars@[j]]),
                decreases chars.len() - i,
            {
                items.push(Value::String(char_string(chars[i])));
                i += 1;
            }
            assert(vals(items@) =~= char_strings(s@));
            map_each(&args[0], &items, env, interp, fuel)
        },
        other => Err(Value::error("NotASequence", one(other.clone()))),
    }
}

/// Calls the host operation `f`.
pub fn call_builtin(f: Builtin, args: Vec<Value>, env: Env, interp: &mut Interp, fuel: u64) -> (res:
    Result<Value, Value>)
    ensures
        (Outcome { result: result_val(res), world: final(interp)@ }) == builtin_spec(
            f,
            vals(args@),
            env as nat,
            old(interp)@,
            fuel as nat,
        ),
    decreases fuel, 6nat, Val::Int(0), 0nat,
{
    match f {
        Builtin::Add => self::add(args, env),
        Builtin::Sub => self::sub(args, env),
        Builtin::Mul => self::mul(args, env),
        Builtin::Div => div(args, env),
        Builtin::Rem => rem(args, env),
        Builtin::Eq => eq(args, env),
        Builtin::Lt => lt(args, env),
        Builtin::Le => le(args, env),
        Builtin::Gt => gt(args, env),
        Builtin::Ge => ge(args, env),
        Builtin::Not => not(args, env),
        Builtin::Type => typ(args, env),
        Builtin::TypeIs(tag) => type_is(tag.name(), args, env),
        Builtin::List => list(args, env),
        Builtin::First => first(args, env),
        Builtin::Last => last(args, env),
        Builtin::Rest => rest(args, env),
        Builtin::Nth => nth(args, env),
        Builtin::Count => count(args, env),
        Builtin::Cons => cons(args, env),
        Builtin::MapOver => map_over(args, env, interp, fuel),
        Builtin::Assoc => assoc(args, env),
        Builtin::Dissoc => dissoc(args, env),
        Builtin::Get => get(args, env),
        Builtin::Keys => keys(args, env),
        Builtin::Values => values(args, env),
        Builtin::Contains => contains(args, env),
        Builtin::Str => str(args, env),
        Builtin::Symbol => symbol(args, env),
        Builtin::Int => to_int(args, env),
        Builtin::Chr => chr(args, env),
        Builtin::Findall => findall(args, env),
        Builtin::Print => print(args, env, interp),
        Builtin::Input => input(args, env, interp),
        Builtin::Apply => apply(args, env, interp, fuel),
        Builtin::Eval => eval(args, env, interp, fuel),
        Builtin::Macro => as_macro(args, env),
        Builtin::Atom => atom(args, env, interp),
        Builtin::SetAtom => set_atom(args, env, interp),
        Builtin::InspectAtom => inspect_atom(args, env, interp, fuel),
        Builtin::Doc => doc(args, env, interp),
        Builtin::Help => help(args, env, interp),
        Builtin::Quit => quit(args, env, interp),
    }
}

} // verus!
