use lisp_core::env::{default_env, new_env, EnvData, Interp};
use lisp_core::types::{Builtin, TypeTag, Value};

fn s(text: &str) -> Value {
    Value::String(text.to_string())
}

fn sym(name: &str) -> Value {
    Value::symbol(name)
}

#[test]
fn is_symbol_compares_the_name() {
    assert!(sym("abc").is_symbol("abc"));
    assert!(!sym("abc").is_symbol("abd"));
    assert!(!s("abc").is_symbol("abc"));
    assert!(!Value::Int(1).is_symbol("1"));
}

#[test]
fn error_values_start_with_err_and_the_kind() {
    assert_eq!(
        Value::error("Kind", vec![Value::Int(1), s("x")]),
        Value::List(vec![sym("err"), sym("Kind"), Value::Int(1), s("x")])
    );
    assert_eq!(Value::error("Kind", vec![]), Value::List(vec![sym("err"), sym("Kind")]));
}

#[test]
fn only_false_and_nil_are_not_truthy() {
    assert!(!sym("false").is_truthy());
    assert!(!sym("nil").is_truthy());
    assert!(sym("true").is_truthy());
    assert!(sym("False").is_truthy());
    assert!(Value::Int(0).is_truthy());
    assert!(s("").is_truthy());
    assert!(s("false").is_truthy());
    assert!(Value::List(vec![]).is_truthy());
    assert!(Value::Table(vec![]).is_truthy());
    assert!(Value::function(Builtin::Add).is_truthy());
    assert!(Value::Atom(0).is_truthy());
}

#[test]
fn constructors_build_what_they_name() {
    assert_eq!(Value::nil(), Value::Symbol("nil".to_string()));
    assert_eq!(Value::symbol("x"), Value::Symbol("x".to_string()));
    assert_eq!(Value::boolean(true), sym("true"));
    assert_eq!(Value::boolean(false), sym("false"));
    assert_eq!(
        Value::function(Builtin::Mul),
        Value::Function { fn_ref: Builtin::Mul, is_macro: false }
    );
}

#[test]
fn as_list_gives_the_elements_of_lists_only() {
    let list = Value::List(vec![Value::Int(1), Value::Int(2)]);
    assert_eq!(list.as_list(), Some(&vec![Value::Int(1), Value::Int(2)]));
    assert_eq!(Value::Int(1).as_list(), None);
    assert_eq!(Value::Table(vec![]).as_list(), None);
}

#[test]
fn clone_copies_a_value() {
    let value = Value::List(vec![
        Value::Int(1),
        s("two"),
        Value::Table(vec![(sym("k"), Value::List(vec![sym("v")]))]),
        Value::Lambda {
            args: Box::new(sym("x")),
            body: Box::new(Value::List(vec![sym("+"), sym("x")])),
            captures: 3,
            is_macro: true,
        },
        Value::Atom(7),
    ]);
    assert_eq!(value.clone(), value);
    match value.clone() {
        Value::List(items) => match &items[3] {
            Value::Lambda { captures, is_macro, .. } => {
                assert_eq!(*captures, 3);
                assert!(*is_macro);
            }
            _ => panic!("a lambda"),
        },
        _ => panic!("a list"),
    }
}

#[test]
fn equality_compares_contents() {
    assert_eq!(Value::Int(1), Value::Int(1));
    assert_ne!(Value::Int(1), Value::Int(2));
    assert_ne!(s("a"), sym("a"));
    assert_eq!(
        Value::List(vec![Value::Int(1), s("a")]),
        Value::List(vec![Value::Int(1), s("a")])
    );
    assert_ne!(Value::List(vec![Value::Int(1)]), Value::List(vec![Value::Int(1), Value::Int(1)]));
    let ab = Value::Table(vec![(sym("a"), Value::Int(1)), (sym("b"), Value::Int(2))]);
    let ba = Value::Table(vec![(sym("b"), Value::Int(2)), (sym("a"), Value::Int(1))]);
    let other = Value::Table(vec![(sym("a"), Value::Int(1)), (sym("b"), Value::Int(3))]);
    assert_eq!(ab, ba);
    assert_eq!(ba, ab);
    assert_ne!(ab, other);
    assert!(ab.equals(&ba));
    assert!(!ab.equals(&other));
}

#[test]
fn equality_of_callables() {
    assert_eq!(Value::function(Builtin::Add), Value::function(Builtin::Add));
    assert_ne!(Value::function(Builtin::Add), Value::function(Builtin::Sub));
    assert_ne!(
        Value::function(Builtin::Add),
        Value::Function { fn_ref: Builtin::Add, is_macro: true }
    );
    assert_ne!(
        Value::function(Builtin::TypeIs(TypeTag::Int)),
        Value::function(Builtin::TypeIs(TypeTag::List))
    );
    let lambda = |captures: usize, is_macro: bool| Value::Lambda {
        args: Box::new(sym("x")),
        body: Box::new(sym("x")),
        captures,
        is_macro,
    };
    assert_eq!(lambda(1, false), lambda(2, false));
    assert_ne!(lambda(1, false), lambda(1, true));
    assert_eq!(Value::Atom(1), Value::Atom(1));
    assert_ne!(Value::Atom(1), Value::Atom(2));
}

#[test]
fn equality_is_reflexive_symmetric_and_transitive() {
    let values = vec![
        Value::Int(3),
        s("x"),
        sym("x"),
        Value::List(vec![Value::Int(3), s("x")]),
        Value::Table(vec![(sym("a"), Value::Int(1)), (sym("b"), Value::Int(2))]),
        Value::Table(vec![(sym("b"), Value::Int(2)), (sym("a"), Value::Int(1))]),
        Value::Table(vec![(sym("a"), Value::Int(1))]),
    ];
    for x in &values {
        assert!(x.equals(x));
        for y in &values {
            assert_eq!(x.equals(y), y.equals(x));
            for z in &values {
                if x.equals(y) && y.equals(z) {
                    assert!(x.equals(z));
                }
            }
        }
    }
}

#[test]
fn equal_values_hash_alike() {
    let lambda = |captures: usize| Value::Lambda {
        args: Box::new(sym("x")),
        body: Box::new(sym("x")),
        captures,
        is_macro: false,
    };
    assert_eq!(lambda(1).hash(), lambda(9).hash());
    assert_eq!(Value::Atom(1).hash(), Value::Atom(2).hash());
    let ab = Value::Table(vec![(sym("a"), Value::Int(1)), (sym("b"), Value::Int(2))]);
    let ba = Value::Table(vec![(sym("b"), Value::Int(2)), (sym("a"), Value::Int(1))]);
    assert_eq!(ab.hash(), ba.hash());
    assert_eq!(Value::List(vec![Value::Int(1), s("a")]).hash(), Value::List(vec![Value::Int(1), s("a")]).hash());
    assert_ne!(Value::Int(1).hash(), Value::Int(2).hash());
    assert_ne!(s("a").hash(), sym("a").hash());
    assert_ne!(Value::List(vec![Value::Int(1), Value::Int(2)]).hash(), Value::List(vec![Value::Int(2), Value::Int(1)]).hash());
    assert_eq!(Value::Int(0).hash(), 1099511628211);
    assert_eq!(Value::Atom(5).hash(), 8u64.wrapping_mul(1099511628211));
}

#[test]
fn display_and_debug_forms() {
    let value = Value::List(vec![
        Value::Int(-12),
        s("a \"b\"\n\\"),
        sym("sym"),
        Value::List(vec![]),
        Value::Table(vec![(sym("k"), s("v")), (Value::Int(1), Value::Int(2))]),
        Value::function(Builtin::Add),
        Value::Atom(0),
    ]);
    assert_eq!(
        value.to_string(),
        "(-12 a \"b\"\n\\ sym () {k v 1 2} #<function> #<atom>)"
    );
    assert_eq!(
        value.to_debug_string(),
        "(-12 \"a \\\"b\\\"\\n\\\\\" sym () {k: \"v\", 1: 2} #<function> #<atom>)"
    );
    assert_eq!(Value::Int(i32::MIN).to_string(), "-2147483648");
    assert_eq!(Value::Int(0).to_string(), "0");
    assert_eq!(Value::Int(1000).to_debug_string(), "1000");
    assert_eq!(s("tab\there\r").to_debug_string(), "\"tab\\there\\r\"");
    assert_eq!(s("plain").to_string(), "plain");
    assert_eq!(Value::Table(vec![]).to_string(), "{}");
    let mut out = String::from("> ");
    Value::Int(5).render(true, &mut out);
    assert_eq!(out, "> 5");
}

#[test]
fn frames_find_names_through_their_parents() {
    let mut interp = Interp::new();
    interp.frames.push(EnvData { parent: None, data: Vec::new() });
    let child = new_env(0, &mut interp);
    let grandchild = new_env(child, &mut interp);
    assert_eq!((child, grandchild), (1, 2));
    interp.define(0, "a", Value::Int(1));
    interp.define(child, "b", Value::Int(2));
    interp.define(child, "a", Value::Int(10));
    assert_eq!(interp.lookup(grandchild, "a"), Some(Value::Int(10)));
    assert_eq!(interp.lookup(grandchild, "b"), Some(Value::Int(2)));
    assert_eq!(interp.lookup(0, "a"), Some(Value::Int(1)));
    assert_eq!(interp.lookup(0, "b"), None);
    assert_eq!(interp.lookup(grandchild, "c"), None);
    assert_eq!(interp.lookup(99, "a"), None);
    interp.define(99, "a", Value::Int(5));
    assert_eq!(interp.frames.len(), 3);
    assert_eq!(interp.frames[grandchild].get("a", &interp), Some(Value::Int(10)));
    assert_eq!(interp.frames[child].get("b", &interp), Some(Value::Int(2)));
    assert_eq!(interp.frames[0].get("b", &interp), None);
}

#[test]
fn set_overwrites_in_the_same_frame() {
    let mut frame = EnvData { parent: None, data: Vec::new() };
    frame.set("x", Value::Int(1));
    frame.set("y", Value::Int(2));
    frame.set("x", Value::Int(3));
    assert_eq!(frame.data.len(), 2);
    let interp = Interp::new();
    assert_eq!(frame.get("x", &interp), Some(Value::Int(3)));
    assert_eq!(frame.get("y", &interp), Some(Value::Int(2)));
    assert_eq!(frame.get("z", &interp), None);
}

#[test]
fn atoms_input_and_output_of_the_interpreter() {
    let mut interp = Interp::new();
    let a = interp.alloc_atom(Value::Int(1));
    let b = interp.alloc_atom(s("x"));
    assert_eq!((a, b), (0, 1));
    assert_eq!(interp.atom_value(a), Some(Value::Int(1)));
    interp.store_atom(a, Value::Int(2));
    assert_eq!(interp.atom_value(a), Some(Value::Int(2)));
    assert_eq!(interp.atom_value(5), None);
    interp.store_atom(5, Value::Int(0));
    assert_eq!(interp.atoms.len(), 2);
    interp.emit("line".to_string());
    assert_eq!(interp.output, vec!["line".to_string()]);
    interp.input.push("one\n".to_string());
    interp.input.push("two\n".to_string());
    assert_eq!(interp.next_input(), "one\n");
    assert_eq!(interp.next_input(), "two\n");
    assert_eq!(interp.next_input(), "");
    interp.keep_doc("about x".to_string());
    interp.attach_doc("x");
    assert_eq!(interp.doc_of("x"), Some("about x".to_string()));
    interp.attach_doc("y");
    assert_eq!(interp.doc_of("y"), None);
    interp.document("y", "about y");
    assert_eq!(interp.doc_of("y"), Some("about y".to_string()));
    assert!(!interp.quit);
    interp.request_quit();
    assert!(interp.quit);
}

#[test]
fn default_env_registers_the_operations() {
    let interp = default_env(vec![s("arg")]);
    assert_eq!(interp.frames.len(), 1);
    assert_eq!(interp.lookup(0, "+"), Some(Value::function(Builtin::Add)));
    assert_eq!(interp.lookup(0, "%"), Some(Value::function(Builtin::Rem)));
    assert_eq!(interp.lookup(0, "map"), Some(Value::function(Builtin::MapOver)));
    assert_eq!(
        interp.lookup(0, "err?"),
        Some(Value::function(Builtin::TypeIs(TypeTag::Error)))
    );
    assert_eq!(interp.lookup(0, "*ARGS*"), Some(Value::List(vec![s("arg")])));
    assert_eq!(interp.lookup(0, "if"), None);
    assert_eq!(
        interp.doc_of("+"),
        Some("Calculate the sum of the arguments".to_string())
    );
    assert_eq!(
        interp.doc_of("def!"),
        Some("Define a variable, providing its name and a value".to_string())
    );
    assert!(interp.atoms.is_empty());
    assert!(interp.output.is_empty());
}
