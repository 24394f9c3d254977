//! Validity from end to end: what the reader gives is valid, the state that
//! programs start in is valid, and evaluation keeps both so.

use vstd::prelude::*;
use crate::env::{bare_world, default_world, documented, registered, World};
use crate::equality::{law_tables_stay_valid, well_formed};
use crate::eval::model::eval_spec;
use crate::eval::valid::{
    all_valid, lemma_bind_valid, lemma_eval_valid, lemma_same_values, valid, valid_world,
};
use crate::parser::{
    doc_form, emit_spec, lemma_token_advances, line_end, parse_spec, read_all, token_spec,
    top_level, wrap_name, wrapped, LevelV, Wrap,
};
use crate::roundtrip::lemma_read_all_token;
use crate::types::{Builtin, TypeTag, Val};

verus! {

/// Registering a host operation keeps the state valid.
proof fn lemma_registered_valid(w: World, name: Seq<char>, f: Builtin, doc: Seq<char>)
    requires
        valid_world(w),
    ensures
        valid_world(registered(w, name, f, doc)),
{
    let value = Val::Function { fn_ref: f, is_macro: false };
    lemma_bind_valid(w, 0, name, value);
    lemma_same_values(w.bind(0, name, value), registered(w, name, f, doc));
}

/// The state that programs start in is valid, where the program's
/// arguments are.
pub proof fn law_default_state_is_valid(args: Seq<Val>)
    requires
        all_valid(args),
    ensures
        valid_world(default_world(args)),
{
    let w = bare_world();
    assert(valid_world(w)) by {
        assert forall|i: int, k: Seq<char>|
            0 <= i < w.frames.len() && w.frames[i].vars.contains_key(k) implies well_formed(
            #[trigger] w.frames[i].vars[k],
        ) by {}
    }
    let n = registered(w, "+"@, Builtin::Add, "Calculate the sum of the arguments"@);
    lemma_registered_valid(w, "+"@, Builtin::Add, "Calculate the sum of the arguments"@);
    let w = n;
    let n = registered(w, "-"@, Builtin::Sub, "Calculate the difference between arguments. One argument calculates the negative."@);
    lemma_registered_valid(w, "-"@, Builtin::Sub, "Calculate the difference between arguments. One argument calculates the negative."@);
    let w = n;
    let n = registered(w, "*"@, Builtin::Mul, "Calculate the product of the arguments."@);
    lemma_registered_valid(w, "*"@, Builtin::Mul, "Calculate the product of the arguments."@);
    let w = n;
    let n = registered(w, "/"@, Builtin::Div, "Divide the two arguments, rounding toward zero."@);
    lemma_registered_valid(w, "/"@, Builtin::Div, "Divide the two arguments, rounding toward zero."@);
    let w = n;
    let n = registered(w, "%"@, Builtin::Rem, "Calculate the remainder when dividing the two arguments."@);
    lemma_registered_valid(w, "%"@, Builtin::Rem, "Calculate the remainder when dividing the two arguments."@);
    let w = n;
    let n = registered(w, "="@, Builtin::Eq, "Check if two values are equal"@);
    lemma_registered_valid(w, "="@, Builtin::Eq, "Check if two values are equal"@);
    let w = n;
    let n = registered(w, "<"@, Builtin::Lt, "Check if one numerical value is less than another"@);
    lemma_registered_valid(w, "<"@, Builtin::Lt, "Check if one numerical value is less than another"@);
    let w = n;
    let n = registered(w, "<="@, Builtin::Le, "Check if one numerical value is less than or equal to another"@);
    lemma_registered_valid(w, "<="@, Builtin::Le, "Check if one numerical value is less than or equal to another"@);
    let w = n;
    let n = registered(w, ">"@, Builtin::Gt, "Check if a numerical value is greater than another"@);
    lemma_registered_valid(w, ">"@, Builtin::Gt, "Check if a numerical value is greater than another"@);
    let w = n;
    let n = registered(w, ">="@, Builtin::Ge, "Check if a numerical value is greater than or equal to another"@);
    lemma_registered_valid(w, ">="@, Builtin::Ge, "Check if a numerical value is greater than or equal to another"@);
    let w = n;
    let n = registered(w, "not"@, Builtin::Not, "Check if a value is not truthy"@);
    lemma_registered_valid(w, "not"@, Builtin::Not, "Check if a value is not truthy"@);
    let w = n;
    let n = registered(w, "print"@, Builtin::Print, "Print the arguments to stdout"@);
    lemma_registered_valid(w, "print"@, Builtin::Print, "Print the arguments to stdout"@);
    let w = n;
    let n = registered(w, "input"@, Builtin::Input, "Read a line of input from stdin"@);
    lemma_registered_valid(w, "input"@, Builtin::Input, "Read a line of input from stdin"@);
    let w = n;
    let n = registered(w, "findall"@, Builtin::Findall, "Search a string for all non-overlapping matches to a regular expression"@);
    lemma_registered_valid(w, "findall"@, Builtin::Findall, "Search a string for all non-overlapping matches to a regular expression"@);
    let w = n;
    let n = registered(w, "eval"@, Builtin::Eval, "Evaluate a given expression as code"@);
    lemma_registered_valid(w, "eval"@, Builtin::Eval, "Evaluate a given expression as code"@);
    let w = n;
    let n = registered(w, "apply"@, Builtin::Apply, "Apply the given function using the given arguments."@);
    lemma_registered_valid(w, "apply"@, Builtin::Apply, "Apply the given function using the given arguments."@);
    let w = n;
    let n = registered(w, "map"@, Builtin::MapOver, "Apply a function to each element of a sequence"@);
    lemma_registered_valid(w, "map"@, Builtin::MapOver, "Apply a function to each element of a sequence"@);
    let w = n;
    let n = registered(w, "str"@, Builtin::Str, "Concatenate the arguments into a string"@);
    lemma_registered_valid(w, "str"@, Builtin::Str, "Concatenate the arguments into a string"@);
    let w = n;
    let n = registered(w, "symbol"@, Builtin::Symbol, "Convert a string to a symbol"@);
    lemma_registered_valid(w, "symbol"@, Builtin::Symbol, "Convert a string to a symbol"@);
    let w = n;
    let n = registered(w, "int"@, Builtin::Int, "Convert a string to an int"@);
    lemma_registered_valid(w, "int"@, Builtin::Int, "Convert a string to an int"@);
    let w = n;
    let n = registered(w, "chr"@, Builtin::Chr, "Convert an integer to its corresponding character in UTF-8"@);
    lemma_registered_valid(w, "chr"@, Builtin::Chr, "Convert an integer to its corresponding character in UTF-8"@);
    let w = n;
    let n = registered(w, "list"@, Builtin::List, "Collect the arguments into a list"@);
    lemma_registered_valid(w, "list"@, Builtin::List, "Collect the arguments into a list"@);
    let w = n;
    let n = registered(w, "cons"@, Builtin::Cons, "Prepend a value to a list"@);
    lemma_registered_valid(w, "cons"@, Builtin::Cons, "Prepend a value to a list"@);
    let w = n;
    let n = registered(w, "nth"@, Builtin::Nth, "Get the nth value of a sequence"@);
    lemma_registered_valid(w, "nth"@, Builtin::Nth, "Get the nth value of a sequence"@);
    let w = n;
    let n = registered(w, "count"@, Builtin::Count, "Find the size of a sequence"@);
    lemma_registered_valid(w, "count"@, Builtin::Count, "Find the size of a sequence"@);
    let w = n;
    let n = registered(w, "assoc"@, Builtin::Assoc, "Return a table with the additional keys and values put into the given table"@);
    lemma_registered_valid(w, "assoc"@, Builtin::Assoc, "Return a table with the additional keys and values put into the given table"@);
    let w = n;
    let n = registered(w, "dissoc"@, Builtin::Dissoc, "Return a table without the specified keys"@);
    lemma_registered_valid(w, "dissoc"@, Builtin::Dissoc, "Return a table without the specified keys"@);
    let w = n;
    let n = registered(w, "first"@, Builtin::First, "Get the first value of a sequence."@);
    lemma_registered_valid(w, "first"@, Builtin::First, "Get the first value of a sequence."@);
    let w = n;
    let n = registered(w, "last"@, Builtin::Last, "Get the last value of a sequence."@);
    lemma_registered_valid(w, "last"@, Builtin::Last, "Get the last value of a sequence."@);
    let w = n;
    let n = registered(w, "rest"@, Builtin::Rest, "Get a copy of a list without its first value"@);
    lemma_registered_valid(w, "rest"@, Builtin::Rest, "Get a copy of a list without its first value"@);
    let w = n;
    let n = registered(w, "get"@, Builtin::Get, "Get the value associated with a given key in a table"@);
    lemma_registered_valid(w, "get"@, Builtin::Get, "Get the value associated with a given key in a table"@);
    let w = n;
    let n = registered(w, "keys"@, Builtin::Keys, "Get a table's keys as a sequence"@);
    lemma_registered_valid(w, "keys"@, Builtin::Keys, "Get a table's keys as a sequence"@);
    let w = n;
    let n = registered(w, "values"@, Builtin::Values, "Get a table's values as a sequence"@);
    lemma_registered_valid(w, "values"@, Builtin::Values, "Get a table's values as a sequence"@);
    let w = n;
    let n = registered(w, "contains?"@, Builtin::Contains, "Check if a table contains a key"@);
    lemma_registered_valid(w, "contains?"@, Builtin::Contains, "Check if a table contains a key"@);
    let w = n;
    let n = registered(w, "type"@, Builtin::Type, "Get the type of a value, as a symbol"@);
    lemma_registered_valid(w, "type"@, Builtin::Type, "Get the type of a value, as a symbol"@);
    let w = n;
    let n = registered(w, "err?"@, Builtin::TypeIs(TypeTag::Error), "Check if the value is an error"@);
    lemma_registered_valid(w, "err?"@, Builtin::TypeIs(TypeTag::Error), "Check if the value is an error"@);
    let w = n;
    let n = registered(w, "function?"@, Builtin::TypeIs(TypeTag::Function), "Check if the value is a function"@);
    lemma_registered_valid(w, "function?"@, Builtin::TypeIs(TypeTag::Function), "Check if the value is a function"@);
    let w = n;
    let n = registered(w, "atom?"@, Builtin::TypeIs(TypeTag::Atom), "Check if the value is an atom"@);
    lemma_registered_valid(w, "atom?"@, Builtin::TypeIs(TypeTag::Atom), "Check if the value is an atom"@);
    let w = n;
    let n = registered(w, "macro?"@, Builtin::TypeIs(TypeTag::Macro), "Check if the value is a macro"@);
    lemma_registered_valid(w, "macro?"@, Builtin::TypeIs(TypeTag::Macro), "Check if the value is a macro"@);
    let w = n;
    let n = registered(w, "list?"@, Builtin::TypeIs(TypeTag::List), "Check if the value is a list"@);
    lemma_registered_valid(w, "list?"@, Builtin::TypeIs(TypeTag::List), "Check if the value is a list"@);
    let w = n;
    let n = registered(w, "table?"@, Builtin::TypeIs(TypeTag::Table), "Check if the value is a table"@);
    lemma_registered_valid(w, "table?"@, Builtin::TypeIs(TypeTag::Table), "Check if the value is a table"@);
    let w = n;
    let n = registered(w, "nil?"@, Builtin::TypeIs(TypeTag::Nil), "Check if the value is nil"@);
    lemma_registered_valid(w, "nil?"@, Builtin::TypeIs(TypeTag::Nil), "Check if the value is nil"@);
    let w = n;
    let n = registered(w, "bool?"@, Builtin::TypeIs(TypeTag::Bool), "Check if the value is a boolean"@);
    lemma_registered_valid(w, "bool?"@, Builtin::TypeIs(TypeTag::Bool), "Check if the value is a boolean"@);
    let w = n;
    let n = registered(w, "symbol?"@, Builtin::TypeIs(TypeTag::Symbol), "Check if the value is a symbol"@);
    lemma_registered_valid(w, "symbol?"@, Builtin::TypeIs(TypeTag::Symbol), "Check if the value is a symbol"@);
    let w = n;
    let n = registered(w, "int?"@, Builtin::TypeIs(TypeTag::Int), "Check if the value is an integer"@);
    lemma_registered_valid(w, "int?"@, Builtin::TypeIs(TypeTag::Int), "Check if the value is an integer"@);
    let w = n;
    let n = registered(w, "macro"@, Builtin::Macro, "Convert a function to a macro. The function should take syntax as an input and produce it as output."@);
    lemma_registered_valid(w, "macro"@, Builtin::Macro, "Convert a function to a macro. The function should take syntax as an input and produce it as output."@);
    let w = n;
    let n = registered(w, "atom"@, Builtin::Atom, "Create a new atom with the given value inside it"@);
    lemma_registered_valid(w, "atom"@, Builtin::Atom, "Create a new atom with the given value inside it"@);
    let w = n;
    let n = registered(w, "set!"@, Builtin::SetAtom, "Set the value inside an atom, returning the value it held before"@);
    lemma_registered_valid(w, "set!"@, Builtin::SetAtom, "Set the value inside an atom, returning the value it held before"@);
    let w = n;
    let n = registered(w, "inspect!"@, Builtin::InspectAtom, "Modify the value in the atom with a function"@);
    lemma_registered_valid(w, "inspect!"@, Builtin::InspectAtom, "Modify the value in the atom with a function"@);
    let w = n;
    let n = registered(w, "doc"@, Builtin::Doc, "Attach documentation to the next value that is defined"@);
    lemma_registered_valid(w, "doc"@, Builtin::Doc, "Attach documentation to the next value that is defined"@);
    let w = n;
    let n = registered(w, "help"@, Builtin::Help, "Retrieve the documentation for a function"@);
    lemma_registered_valid(w, "help"@, Builtin::Help, "Retrieve the documentation for a function"@);
    let w = n;
    let n = registered(w, "quit"@, Builtin::Quit, "Ask the read-eval-print loop to stop"@);
    lemma_registered_valid(w, "quit"@, Builtin::Quit, "Ask the read-eval-print loop to stop"@);
    let w = n;
    let n = documented(w, "\\"@, "Create a lambda function that accepts the given parameters and returns the result of evaluating the body expression"@);
    lemma_same_values(w, n);
    let w = n;
    let n = documented(w, "if"@, "If the first value is truthy, evaluate and return the second value. Otherwise, evaluate and return the third value."@);
    lemma_same_values(w, n);
    let w = n;
    let n = documented(w, "quote"@, "Return the arguments without evaluating them"@);
    lemma_same_values(w, n);
    let w = n;
    let n = documented(w, "quasiquote"@, "Return the arguments, only evaluating the parts within a (unquote ...) expression"@);
    lemma_same_values(w, n);
    let w = n;
    let n = documented(w, "err"@, "Throw an error with the provided information. The first argument is not evaluated and should be an identifier."@);
    lemma_same_values(w, n);
    let w = n;
    let n = documented(w, "let*"@, "The first argument is an alternating list of patterns and values. Each value is evaluated in order and bound to its corresponding pattern. Returns the result of evaluating the second argument with the context of the bindings created from the first argument."@);
    lemma_same_values(w, n);
    let w = n;
    let n = documented(w, "def!"@, "Define a variable, providing its name and a value"@);
    lemma_same_values(w, n);
    let w = n;
    let n = documented(w, "do"@, "Evaluate the arguments in order and return the value of the last"@);
    lemma_same_values(w, n);
    let w = n;
    let n = documented(w, "try*"@, "Attempt to evaluate the first argument. If an exception is thrown, goes to each catch block to recover"@);
    lemma_same_values(w, n);
    let w = n;
    let n = documented(w, "*ARGS*"@, "Arguments provided in the command line"@);
    lemma_same_values(w, n);
    let w = n;
    lemma_bind_valid(w, 0, "*ARGS*"@, Val::List(args));
}

/// Whether every value on the reader's stack is valid.
pub open spec fn valid_levels(levels: Seq<LevelV>) -> bool {
    forall|i: int| 0 <= i < levels.len() ==> all_valid((#[trigger] levels[i]).items)
}

proof fn lemma_push_valid(items: Seq<Val>, v: Val)
    requires
        all_valid(items),
        well_formed(v),
    ensures
        all_valid(items.push(v)),
{
    let more = items.push(v);
    assert forall|j: int| 0 <= j < more.len() implies well_formed(#[trigger] more[j]) by {
        if j < items.len() {
            assert(more[j] == items[j]);
        }
    }
}

proof fn lemma_wrapped_valid(wraps: Seq<Wrap>, v: Val)
    requires
        well_formed(v),
    ensures
        well_formed(wrapped(wraps, v)),
    decreases wraps.len(),
{
    if wraps.len() > 0 {
        let inner = Val::List(seq![Val::Symbol(wrap_name(wraps.last())), v]);
        assert(all_valid(inner->List_0));
        lemma_wrapped_valid(wraps.drop_last(), inner);
    }
}

proof fn lemma_emit_valid(levels: Seq<LevelV>, v: Val)
    requires
        valid_levels(levels),
        well_formed(v),
    ensures
        valid_levels(emit_spec(levels, v)),
{
    if levels.len() > 0 {
        let top = levels.last();
        lemma_wrapped_valid(top.wraps, v);
        assert(all_valid(levels[levels.len() - 1].items));
        lemma_push_valid(top.items, wrapped(top.wraps, v));
        let after = emit_spec(levels, v);
        assert forall|i: int| 0 <= i < after.len() implies all_valid((#[trigger] after[i]).items) by {
            if i < levels.len() - 1 {
                assert(after[i] == levels[i]);
            }
        }
    }
}

proof fn lemma_token_valid(s: Seq<char>, pos: int, levels: Seq<LevelV>)
    requires
        0 <= pos < s.len(),
        valid_levels(levels),
    ensures
        token_spec(s, pos, levels) matches Ok(sc) ==> valid_levels(sc.levels) && (
        sc.value matches Some(v) ==> well_formed(v)),
{
    match token_spec(s, pos, levels) {
        Ok(sc) => {
            assert forall|i: int| 0 <= i < sc.levels.len() implies all_valid(
                (#[trigger] sc.levels[i]).items,
            ) by {
                if i < levels.len() {
                    assert(all_valid(levels[i].items));
                    if i == levels.len() - 1 {
                        let top = levels.last();
                        let c = s[pos];
                        if c == '#' && pos + 1 < s.len() && s[pos + 1] == '#' {
                            let start = if pos + 2 < s.len() && s[pos + 2] == ' ' {
                                pos + 3
                            } else {
                                pos + 2
                            };
                            let form = doc_form(s.subrange(start, line_end(s, start)));
                            assert(all_valid(form->List_0));
                            lemma_push_valid(top.items, form);
                        }
                    } else {
                        assert(sc.levels[i] == levels[i]);
                    }
                }
            }
            if sc.value is Some && levels.len() >= 2 {
                let items = levels.last().items;
                assert(all_valid(levels[levels.len() - 1].items));
                law_tables_stay_valid(items);
                let bracketed = seq![Val::Symbol("list"@)] + items;
                assert forall|j: int| 0 <= j < bracketed.len() implies well_formed(
                    #[trigger] bracketed[j],
                ) by {
                    if j > 0 {
                        assert(bracketed[j] == items[j - 1]);
                    }
                }
            }
        },
        Err(_) => {},
    }
}

proof fn lemma_read_all_valid(s: Seq<char>, pos: int, levels: Seq<LevelV>)
    requires
        0 <= pos,
        valid_levels(levels),
    ensures
        read_all(s, pos, levels) matches Ok(v) ==> well_formed(v),
    decreases s.len() - pos,
{
    if pos < s.len() {
        lemma_read_all_token(s, pos, levels);
        lemma_token_advances(s, pos, levels);
        lemma_token_valid(s, pos, levels);
        match token_spec(s, pos, levels) {
            Ok(sc) => {
                match sc.value {
                    Some(v) => {
                        lemma_emit_valid(sc.levels, v);
                        lemma_read_all_valid(s, sc.next, emit_spec(sc.levels, v));
                    },
                    None => {
                        lemma_read_all_valid(s, sc.next, sc.levels);
                    },
                }
            },
            Err(_) => {},
        }
    } else {
        if levels.len() == 1 {
            let items = levels[0].items;
            let program = seq![Val::Symbol("do"@)] + items;
            assert forall|j: int| 0 <= j < program.len() implies well_formed(
                #[trigger] program[j],
            ) by {
                if j > 0 {
                    assert(program[j] == items[j - 1]);
                }
            }
        }
    }
}

/// What the reader gives is valid: no table in it has two equal keys.
pub proof fn law_reader_gives_valid_values(s: Seq<char>)
    ensures
        parse_spec(s) matches Ok(program) ==> well_formed(program),
{
    assert(all_valid(top_level()[0].items));
    lemma_read_all_valid(s, 0, top_level());
}

/// Evaluation keeps validity: of a valid expression in a valid state, the
/// value or the error is valid, and so is the state that is left.
pub proof fn law_evaluation_keeps_validity(syn: Val, env: nat, w: World, fuel: nat)
    requires
        valid_world(w),
        well_formed(syn),
    ensures
        valid(eval_spec(syn, env, w, fuel)),
{
    lemma_eval_valid(syn, env, w, fuel);
}

/// Whatever a program that was read gives in the state that programs start
/// in is valid, so that equality is an equivalence on it.
pub proof fn law_programs_give_valid_values(s: Seq<char>, args: Seq<Val>, fuel: nat)
    requires
        all_valid(args),
    ensures
        parse_spec(s) matches Ok(program) ==> valid(
            eval_spec(program, 0, default_world(args), fuel),
        ),
{
    law_reader_gives_valid_values(s);
    law_default_state_is_valid(args);
    match parse_spec(s) {
        Ok(program) => {
            lemma_eval_valid(program, 0, default_world(args), fuel);
        },
        Err(_) => {},
    }
}

} // verus!
