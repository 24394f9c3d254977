//! The value representation: one tagged union that is both syntax and runtime
//! data, together with the mathematical model that the contracts speak of.

use vstd::prelude::*;

verus! {

/// Handle of an environment frame held by an interpreter.
pub type Env = usize;

/// The names that `type` can answer with.
#[derive(Clone, Copy, Debug, PartialEq, Eq, Hash, Structural)]
pub enum TypeTag {
    Int,
    String,
    Symbol,
    Bool,
    Nil,
    List,
    Error,
    Table,
    Function,
    Macro,
    Atom,
}

/// A host operation. Two function values are the same callable exactly when
/// they hold the same `Builtin`.
#[derive(Clone, Copy, Debug, PartialEq, Eq, Hash, Structural)]
pub enum Builtin {
    Add,
    Sub,
    Mul,
    Div,
    Rem,
    Eq,
    Lt,
    Le,
    Gt,
    Ge,
    Not,
    Type,
    TypeIs(TypeTag),
    List,
    First,
    Last,
    Rest,
    Nth,
    Count,
    Cons,
    MapOver,
    Assoc,
    Dissoc,
    Get,
    Keys,
    Values,
    Contains,
    Str,
    Symbol,
    Int,
    Chr,
    Findall,
    Print,
    Input,
    Apply,
    Eval,
    Macro,
    Atom,
    SetAtom,
    InspectAtom,
    Doc,
    Help,
    Quit,
}

/// The mathematical model of a value.
///
/// Text is a sequence of characters, a list a sequence of models, a table its
/// entries in insertion order. Environment frames and atom cells are named by
/// their index in the interpreter that holds them.
pub enum Val {
    Int(i32),
    Str(Seq<char>),
    Symbol(Seq<char>),
    List(Seq<Val>),
    Table(Seq<(Val, Val)>),
    Function { fn_ref: Builtin, is_macro: bool },
    Lambda { args: Box<Val>, body: Box<Val>, captures: nat, is_macro: bool },
    Atom(nat),
}

/// A value in the lisp. This includes source code and runtime data.
#[derive(Debug)]
pub enum Value {
    /// An int literal or value; evaluates to itself.
    Int(i32),
    /// A string literal or value; evaluates to itself.
    String(String),
    /// A symbol or identifier. `true`, `false` and `nil` evaluate to
    /// themselves, any other symbol is looked up.
    Symbol(String),
    /// A list of values. Evaluated as a special form or as an application.
    List(Vec<Value>),
    /// A key-value store, its entries in insertion order and no key twice.
    Table(Vec<(Value, Value)>),
    /// A host function; evaluates to itself.
    Function { fn_ref: Builtin, is_macro: bool },
    /// A function that captures the environment it was made in; evaluates to
    /// itself.
    Lambda { args: Box<Value>, body: Box<Value>, captures: Env, is_macro: bool },
    /// A mutable cell, named by its index in the interpreter.
    Atom(usize),
}

/// The models of a sequence of values.
pub open spec fn vals(s: Seq<Value>) -> Seq<Val> {
    Seq::new(s.len(), |i: int| s[i].val())
}

/// The models of a sequence of table entries.
pub open spec fn entry_vals(s: Seq<(Value, Value)>) -> Seq<(Val, Val)> {
    Seq::new(s.len(), |i: int| (s[i].0.val(), s[i].1.val()))
}

/// The model of a result whose two sides are values.
pub open spec fn result_val(r: Result<Value, Value>) -> Result<Val, Val> {
    match r {
        Ok(v) => Ok(v.val()),
        Err(e) => Err(e.val()),
    }
}

/// The symbol `nil`.
pub open spec fn nil_val() -> Val {
    Val::Symbol("nil"@)
}

/// The symbol `true` or the symbol `false`.
pub open spec fn bool_val(b: bool) -> Val {
    if b {
        Val::Symbol("true"@)
    } else {
        Val::Symbol("false"@)
    }
}

/// The error value `(err KIND context...)`.
pub open spec fn error_val(kind: Seq<char>, context: Seq<Val>) -> Val {
    Val::List(seq![Val::Symbol("err"@), Val::Symbol(kind)] + context)
}

/// Whether a value has the shape of an error: a list that starts with the
/// symbol `err` and a symbol that names the kind.
pub open spec fn is_error_val(v: Val) -> bool {
    &&& v is List
    &&& v->List_0.len() >= 2
    &&& v->List_0[0] == Val::Symbol("err"@)
    &&& v->List_0[1] is Symbol
}

/// Every value is truthy but the symbols `false` and `nil`.
pub open spec fn truthy(v: Val) -> bool {
    !(v == Val::Symbol("false"@) || v == Val::Symbol("nil"@))
}

/// Equality of values as the language sees it. Lists are compared element by
/// element, tables as sets of entries, functions by the callable and the macro
/// flag, lambdas by pattern, body and macro flag (what they captured does not
/// count), atoms by the cell.
pub open spec fn val_eq(a: Val, b: Val) -> bool
    decreases a, 0nat,
{
    match a {
        Val::Int(x) => b == Val::Int(x),
        Val::Str(x) => b == Val::Str(x),
        Val::Symbol(x) => b == Val::Symbol(x),
        Val::List(x) => {
            &&& b is List
            &&& x.len() == b->List_0.len()
            &&& forall|i: int| 0 <= i < x.len() ==> val_eq(x[i], #[trigger] b->List_0[i])
        },
        Val::Table(x) => {
            &&& b is Table
            &&& x.len() == b->Table_0.len()
            &&& forall|i: int| 0 <= i < x.len() ==> has_entry(b->Table_0, #[trigger] x[i])
        },
        Val::Function { fn_ref, is_macro } => b == a,
        Val::Lambda { args, body, captures, is_macro } => {
            &&& b is Lambda
            &&& val_eq(*args, *b->Lambda_args)
            &&& val_eq(*body, *b->Lambda_body)
            &&& is_macro == b->Lambda_is_macro
        },
        Val::Atom(x) => b == Val::Atom(x),
    }
}

/// Two table entries are equal when their keys and their values are.
pub open spec fn entry_eq(a: (Val, Val), b: (Val, Val)) -> bool
    decreases a, 1nat,
{
    val_eq(a.0, b.0) && val_eq(a.1, b.1)
}

/// Whether the entries `t` hold one that is equal to `e`.
pub open spec fn has_entry(t: Seq<(Val, Val)>, e: (Val, Val)) -> bool
    decreases e, 2nat,
{
    exists|j: int| 0 <= j < t.len() && entry_eq(e, #[trigger] t[j])
}

impl Value {
    /// The mathematical value that this value stands for. The tests on the
    /// index inside the sequences serve the proof of termination alone: no
    /// other index is ever asked for.
    pub open spec fn val(&self) -> Val
        decreases self,
    {
        match self {
            Value::Int(i) => Val::Int(*i),
            Value::String(s) => Val::Str(s@),
            Value::Symbol(s) => Val::Symbol(s@),
            Value::List(l) => Val::List(
                Seq::new(
                    l@.len(),
                    |i: int|
                        if 0 <= i < l@.len() {
                            l@[i].val()
                        } else {
                            Val::Int(0)
                        },
                ),
            ),
            Value::Table(t) => Val::Table(
                Seq::new(
                    t@.len(),
                    |i: int|
                        if 0 <= i < t@.len() {
                            (t@[i].0.val(), t@[i].1.val())
                        } else {
                            (Val::Int(0), Val::Int(0))
                        },
                ),
            ),
            Value::Function { fn_ref, is_macro } => Val::Function {
                fn_ref: *fn_ref,
                is_macro: *is_macro,
            },
            Value::Lambda { args, body, captures, is_macro } => Val::Lambda {
                args: Box::new(args.val()),
                body: Box::new(body.val()),
                captures: *captures as nat,
                is_macro: *is_macro,
            },
            Value::Atom(a) => Val::Atom(*a as nat),
        }
    }

    /// The model of a list is the list of its elements' models.
    pub broadcast proof fn lemma_list_val(l: Vec<Value>)
        ensures
            #[trigger] Value::List(l).val() == Val::List(vals(l@)),
    {
        assert(Value::List(l).val()->List_0 =~= vals(l@));
    }

    /// The model of a table is the sequence of its entries' models.
    pub broadcast proof fn lemma_table_val(t: Vec<(Value, Value)>)
        ensures
            #[trigger] Value::Table(t).val() == Val::Table(entry_vals(t@)),
    {
        assert(Value::Table(t).val()->Table_0 =~= entry_vals(t@));
    }
}

pub broadcast group group_value_models {
    Value::lemma_list_val,
    Value::lemma_table_val,
}

impl View for Value {
    type V = Val;

    open spec fn view(&self) -> Val {
        self.val()
    }
}

impl Clone for Value {
    fn clone(&self) -> (res: Self)
        ensures
            res@ == self@,
        decreases self,
    {
        match self {
            Value::Int(i) => Value::Int(*i),
            Value::String(s) => Value::String(s.clone()),
            Value::Symbol(s) => Value::Symbol(s.clone()),
            Value::List(l) => {
                let mut out: Vec<Value> = Vec::new();
                let mut i: usize = 0;
                while i < l.len()
                    invariant
                        i <= l.len(),
                        out.len() == i,
                        self is List,
                        self->List_0 == *l,
                        forall|j: int| 0 <= j < i ==> out@[j]@ == l@[j]@,
                    decreases l.len() - i,
                {
                    assert(decreases_to!(self => self->List_0@[i as int]));
                    out.push(l[i].clone());
                    i += 1;
                }
                let r = Value::List(out);
                assert(r@->List_0 =~= self@->List_0);
                r
            },
            Value::Table(t) => {
                let mut out: Vec<(Value, Value)> = Vec::new();
                let mut i: usize = 0;
                while i < t.len()
                    invariant
                        i <= t.len(),
                        out.len() == i,
                        self is Table,
                        self->Table_0 == *t,
                        forall|j: int|
                            0 <= j < i ==> out@[j].0@ == t@[j].0@ && out@[j].1@ == t@[j].1@,
                    decreases t.len() - i,
                {
                    assert(decreases_to!(self => self->Table_0@[i as int].0));
                    assert(decreases_to!(self => self->Table_0@[i as int].1));
                    out.push((t[i].0.clone(), t[i].1.clone()));
                    i += 1;
                }
                let r = Value::Table(out);
                assert(r@->Table_0 =~= self@->Table_0);
                r
            },
            Value::Function { fn_ref, is_macro } => Value::Function {
                fn_ref: *fn_ref,
                is_macro: *is_macro,
            },
            Value::Lambda { args, body, captures, is_macro } => Value::Lambda {
                args: Box::new((&**args).clone()),
                body: Box::new((&**body).clone()),
                captures: *captures,
                is_macro: *is_macro,
            },
            Value::Atom(a) => Value::Atom(*a),
        }
    }
}

/// Copies a sequence of values.
pub fn clone_values(v: &Vec<Value>) -> (res: Vec<Value>)
    ensures
        vals(res@) == vals(v@),
{
    let mut out: Vec<Value> = Vec::new();
    let mut i: usize = 0;
    while i < v.len()
        invariant
            i <= v.len(),
            out.len() == i,
            forall|j: int| 0 <= j < i ==> out@[j]@ == v@[j]@,
        decreases v.len() - i,
    {
        out.push(v[i].clone());
        i += 1;
    }
    assert(vals(out@) =~= vals(v@));
    out
}

/// The one value `v` as a sequence.
pub fn one(v: Value) -> (res: Vec<Value>)
    ensures
        res@ == seq![v],
        vals(res@) == seq![v@],
{
    let mut out: Vec<Value> = Vec::new();
    out.push(v);
    assert(vals(out@) =~= seq![v@]);
    out
}

/// The two values `a` and `b` as a sequence.
pub fn two(a: Value, b: Value) -> (res: Vec<Value>)
    ensures
        vals(res@) == seq![a@, b@],
{
    let mut out: Vec<Value> = Vec::new();
    out.push(a);
    out.push(b);
    assert(vals(out@) =~= seq![a@, b@]);
    out
}

/// Copies the values `v[from..to]`.
pub fn clone_range(v: &Vec<Value>, from: usize, to: usize) -> (res: Vec<Value>)
    requires
        from <= to <= v.len(),
    ensures
        vals(res@) == vals(v@).subrange(from as int, to as int),
{
    let mut out: Vec<Value> = Vec::new();
    let mut i: usize = from;
    while i < to
        invariant
            from <= i <= to <= v.len(),
            out.len() == i - from,
            forall|j: int| 0 <= j < out.len() ==> out@[j]@ == v@[from + j]@,
        decreases to - i,
    {
        out.push(v[i].clone());
        i += 1;
    }
    assert(vals(out@) =~= vals(v@).subrange(from as int, to as int));
    out
}

/// The values of `rest` behind `head`.
pub fn prepend(head: Value, rest: &Vec<Value>) -> (res: Vec<Value>)
    ensures
        vals(res@) == seq![head@] + vals(rest@),
{
    let mut out: Vec<Value> = Vec::new();
    out.push(head);
    let mut i: usize = 0;
    while i < rest.len()
        invariant
            i <= rest.len(),
            out.len() == i + 1,
            out@[0]@ == head@,
            forall|j: int| 0 <= j < i ==> out@[j + 1]@ == rest@[j]@,
        decreases rest.len() - i,
    {
        out.push(rest[i].clone());
        i += 1;
    }
    assert(vals(out@) =~= seq![head@] + vals(rest@));
    out
}

impl Value {
    /// Whether this is the symbol with the given name.
    #[must_use]
    pub fn is_symbol(&self, id: &str) -> (r: bool)
        ensures
            r == (self@ == Val::Symbol(id@)),
    {
        match self {
            Value::Symbol(my_id) => {
                let other = id.to_owned();
                *my_id == other
            },
            _ => false,
        }
    }

    /// The error value `(err msg args...)`.
    #[must_use]
    pub fn error(msg: &str, args: Vec<Value>) -> (res: Value)
        ensures
            res@ == error_val(msg@, vals(args@)),
            is_error_val(res@),
    {
        let mut args = args;
        let ghost context = vals(args@);
        args.insert(0, Value::symbol(msg));
        args.insert(0, Value::symbol("err"));
        let res = Value::List(args);
        proof {
            broadcast use group_value_models;

            assert(vals(args@) =~= seq![Val::Symbol("err"@), Val::Symbol(msg@)] + context);
        }
        res
    }

    /// Every value is truthy except the symbols `false` and `nil`.
    #[must_use]
    pub fn is_truthy(&self) -> (r: bool)
        ensures
            r == truthy(self@),
            r == !(self@ == Val::Symbol("false"@) || self@ == Val::Symbol("nil"@)),
    {
        !self.is_symbol("false") && !self.is_symbol("nil")
    }

    /// The symbol `nil`.
    #[must_use]
    pub fn nil() -> (res: Value)
        ensures
            res@ == nil_val(),
    {
        Value::symbol("nil")
    }

    /// The symbol with the given name.
    #[must_use]
    pub fn symbol(sym: &str) -> (res: Value)
        ensures
            res@ == Val::Symbol(sym@),
    {
        Value::Symbol(sym.to_owned())
    }

    /// The symbol `true` or the symbol `false`.
    #[must_use]
    pub fn boolean(b: bool) -> (res: Value)
        ensures
            res@ == bool_val(b),
    {
        if b {
            Value::symbol("true")
        } else {
            Value::symbol("false")
        }
    }

    /// The host function `func`, not a macro.
    #[must_use]
    pub fn function(func: Builtin) -> (res: Value)
        ensures
            res@ == (Val::Function { fn_ref: func, is_macro: false }),
    {
        Value::Function { fn_ref: func, is_macro: false }
    }

    /// The elements, if this is a list.
    #[must_use]
    pub fn as_list(&self) -> (r: Option<&Vec<Value>>)
        ensures
            r is Some <==> self is List,
            r matches Some(l) ==> *self == Value::List(*l) && self@ == Val::List(vals(l@)),
    {
        match self {
            Value::List(l) => {
                proof {
                    broadcast use group_value_models;

                }
                Some(l)
            },
            _ => None,
        }
    }

    /// Equality as the language's `=` sees it.
    pub fn equals(&self, other: &Value) -> (r: bool)
        ensures
            r == val_eq(self@, other@),
        decreases self,
    {
        match self {
            Value::Int(a) => match other {
                Value::Int(b) => *a == *b,
                _ => false,
            },
            Value::String(a) => match other {
                Value::String(b) => *a == *b,
                _ => false,
            },
            Value::Symbol(a) => match other {
                Value::Symbol(b) => *a == *b,
                _ => false,
            },
            Value::List(a) => match other {
                Value::List(b) => {
                    if a.len() != b.len() {
                        return false;
                    }
                    let mut i: usize = 0;
                    while i < a.len()
                        invariant
                            i <= a.len(),
                            a.len() == b.len(),
                            self is List,
                            self->List_0 == *a,
                            other is List,
                            other->List_0 == *b,
                            forall|j: int| 0 <= j < i ==> val_eq(a@[j]@, #[trigger] b@[j]@),
                        decreases a.len() - i,
                    {
                        assert(decreases_to!(self => self->List_0@[i as int]));
                        if !a[i].equals(&b[i]) {
                            assert(self@->List_0[i as int] == a@[i as int]@);
                            assert(other@->List_0[i as int] == b@[i as int]@);
                            return false;
                        }
                        i += 1;
                    }
                    assert forall|j: int| 0 <= j < self@->List_0.len() implies val_eq(
                        self@->List_0[j],
                        #[trigger] other@->List_0[j],
                    ) by {
                        assert(val_eq(a@[j]@, b@[j]@));
                    }
                    true
                },
                _ => false,
            },
            Value::Table(a) => match other {
                Value::Table(b) => {
                    if a.len() != b.len() {
                        return false;
                    }
                    let mut i: usize = 0;
                    while i < a.len()
                        invariant
                            i <= a.len(),
                            a.len() == b.len(),
                            self is Table,
                            self->Table_0 == *a,
                            other is Table,
                            other->Table_0 == *b,
                            forall|k: int|
                                0 <= k < i ==> has_entry(
                                    other@->Table_0,
                                    #[trigger] self@->Table_0[k],
                                ),
                        decreases a.len() - i,
                    {
                        let mut found = false;
                        let mut j: usize = 0;
                        while j < b.len() && !found
                            invariant
                                j <= b.len(),
                                i < a.len(),
                                a.len() == b.len(),
                                self is Table,
                                self->Table_0 == *a,
                                other is Table,
                                other->Table_0 == *b,
                                found ==> has_entry(other@->Table_0, self@->Table_0[i as int]),
                                !found ==> forall|m: int|
                                    0 <= m < j ==> !entry_eq(
                                        self@->Table_0[i as int],
                                        #[trigger] other@->Table_0[m],
                                    ),
                            decreases b.len() - j, (if found { 0int } else { 1int }),
                        {
                            assert(decreases_to!(self => self->Table_0@[i as int].0));
                            assert(decreases_to!(self => self->Table_0@[i as int].1));
                            assert(self@->Table_0[i as int] == (a@[i as int].0@, a@[i as int].1@));
                            assert(other@->Table_0[j as int] == (b@[j as int].0@, b@[j as int].1@));
                            if a[i].0.equals(&b[j].0) && a[i].1.equals(&b[j].1) {
                                found = true;
                            } else {
                                j += 1;
                            }
                        }
                        if !found {
                            assert(!has_entry(other@->Table_0, self@->Table_0[i as int]));
                            return false;
                        }
                        i += 1;
                    }
                    true
                },
                _ => false,
            },
            Value::Function { fn_ref, is_macro } => match other {
                Value::Function { fn_ref: f2, is_macro: m2 } => *fn_ref == *f2 && *is_macro == *m2,
                _ => false,
            },
            Value::Lambda { args, body, captures, is_macro } => match other {
                Value::Lambda { args: a2, body: b2, captures: _, is_macro: m2 } => {
                    (&**args).equals(&**a2) && (&**body).equals(&**b2) && *is_macro == *m2
                },
                _ => false,
            },
            Value::Atom(a) => match other {
                Value::Atom(b) => *a == *b,
                _ => false,
            },
        }
    }
}

impl PartialEq for Value {
    fn eq(&self, other: &Self) -> (r: bool) {
        self.equals(other)
    }
}

impl vstd::std_specs::cmp::PartialEqSpecImpl for Value {
    open spec fn obeys_eq_spec() -> bool {
        true
    }

    open spec fn eq_spec(&self, other: &Self) -> bool {
        val_eq(self@, other@)
    }
}

impl Eq for Value {

}

} // verus!
