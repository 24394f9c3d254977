use lisp_core::env::{default_env, Interp};
use lisp_core::eval::builtins::{
    add, apply, apply_value, as_macro, assoc, atom, call_builtin, chr, cons, contains, count,
    dissoc, div, doc, eq, eval, findall, findall_result, first, ge, get, gt, help, input,
    inspect_atom, keys, last, le, list, lt, map_over, mul, not, nth, print, quit, rem, rest,
    set_atom, str, sub, symbol, to_int, typ, type_is, values, RegexFailure,
};
use lisp_core::eval::{destructure, eval_all, eval_ref, out_of_steps, step, Step};
use lisp_core::table::{clone_entries, find_entry, insert_entry, remove_entry};
use lisp_core::text::{char_string, parse_i32, string_of, to_chars, IntFailure};
use lisp_core::types::{clone_range, clone_values, one, prepend, two, Builtin, TypeTag, Value};

const FUEL: u64 = 100_000;

fn i(n: i32) -> Value {
    Value::Int(n)
}

fn s(text: &str) -> Value {
    Value::String(text.to_string())
}

fn sym(name: &str) -> Value {
    Value::symbol(name)
}

fn l(items: Vec<Value>) -> Value {
    Value::List(items)
}

fn t(entries: Vec<(Value, Value)>) -> Value {
    Value::Table(entries)
}

fn fails(result: Result<Value, Value>, kind: &str, context: Vec<Value>) {
    assert_eq!(result, Err(Value::error(kind, context)));
}

#[test]
fn addition_sums_with_wrapping() {
    assert_eq!(add(vec![], 0), Ok(i(0)));
    assert_eq!(add(vec![i(1), i(2), i(3)], 0), Ok(i(6)));
    assert_eq!(add(vec![i(i32::MAX), i(1)], 0), Ok(i(i32::MIN)));
    fails(add(vec![i(1), s("a"), sym("b")], 0), "NotANumber", vec![s("a")]);
}

#[test]
fn subtraction_folds_from_zero() {
    assert_eq!(sub(vec![], 0), Ok(i(0)));
    assert_eq!(sub(vec![i(5)], 0), Ok(i(-5)));
    assert_eq!(sub(vec![i(5), i(3)], 0), Ok(i(-8)));
    assert_eq!(sub(vec![i(1), i(2), i(3)], 0), Ok(i(-6)));
    assert_eq!(sub(vec![i(i32::MIN)], 0), Ok(i(i32::MIN)));
    fails(sub(vec![sym("x")], 0), "NotANumber", vec![sym("x")]);
}

#[test]
fn multiplication_multiplies_with_wrapping() {
    assert_eq!(mul(vec![], 0), Ok(i(1)));
    assert_eq!(mul(vec![i(2), i(3), i(7)], 0), Ok(i(42)));
    assert_eq!(mul(vec![i(65536), i(65536)], 0), Ok(i(0)));
    assert_eq!(mul(vec![i(i32::MAX), i(2)], 0), Ok(i(-2)));
    fails(mul(vec![l(vec![])], 0), "NotANumber", vec![l(vec![])]);
}

#[test]
fn division_rounds_toward_zero() {
    assert_eq!(div(vec![i(7), i(2)], 0), Ok(i(3)));
    assert_eq!(div(vec![i(-7), i(2)], 0), Ok(i(-3)));
    assert_eq!(div(vec![i(7), i(-2)], 0), Ok(i(-3)));
    assert_eq!(div(vec![i(-7), i(-2)], 0), Ok(i(3)));
    assert_eq!(div(vec![i(0), i(5)], 0), Ok(i(0)));
    assert_eq!(div(vec![i(i32::MIN), i(-1)], 0), Ok(i(i32::MIN)));
    assert_eq!(div(vec![i(i32::MIN), i(1)], 0), Ok(i(i32::MIN)));
    fails(div(vec![i(1), i(0)], 0), "DivideByZero", vec![]);
    fails(div(vec![i(1)], 0), "InvalidArgs", vec![l(vec![i(1)])]);
    fails(div(vec![s("a"), i(1)], 0), "NotANumber", vec![s("a")]);
    fails(div(vec![i(1), s("b")], 0), "NotANumber", vec![s("b")]);
}

#[test]
fn remainder_takes_the_sign_of_the_dividend() {
    assert_eq!(rem(vec![i(7), i(2)], 0), Ok(i(1)));
    assert_eq!(rem(vec![i(-7), i(2)], 0), Ok(i(-1)));
    assert_eq!(rem(vec![i(7), i(-2)], 0), Ok(i(1)));
    assert_eq!(rem(vec![i(-7), i(-2)], 0), Ok(i(-1)));
    assert_eq!(rem(vec![i(i32::MIN), i(-1)], 0), Ok(i(0)));
    fails(rem(vec![i(1), i(0)], 0), "DivideByZero", vec![]);
    fails(rem(vec![], 0), "InvalidArgs", vec![l(vec![])]);
}

#[test]
fn equality_of_arguments() {
    assert_eq!(eq(vec![], 0), Ok(sym("true")));
    assert_eq!(eq(vec![i(1)], 0), Ok(sym("true")));
    assert_eq!(eq(vec![i(1), i(1), i(1)], 0), Ok(sym("true")));
    assert_eq!(eq(vec![i(1), i(1), i(2)], 0), Ok(sym("false")));
    assert_eq!(eq(vec![s("a"), sym("a")], 0), Ok(sym("false")));
}

#[test]
fn order_relations_take_two_integers() {
    assert_eq!(lt(vec![i(1), i(2)], 0), Ok(sym("true")));
    assert_eq!(lt(vec![i(2), i(2)], 0), Ok(sym("false")));
    assert_eq!(le(vec![i(2), i(2)], 0), Ok(sym("true")));
    assert_eq!(le(vec![i(3), i(2)], 0), Ok(sym("false")));
    assert_eq!(gt(vec![i(3), i(2)], 0), Ok(sym("true")));
    assert_eq!(gt(vec![i(2), i(2)], 0), Ok(sym("false")));
    assert_eq!(ge(vec![i(2), i(2)], 0), Ok(sym("true")));
    assert_eq!(ge(vec![i(-1), i(2)], 0), Ok(sym("false")));
    fails(lt(vec![i(1)], 0), "InvalidArgs", vec![i(1)]);
    fails(le(vec![i(1), s("2")], 0), "InvalidArgs", vec![i(1), s("2")]);
    fails(gt(vec![i(1), i(2), i(3)], 0), "InvalidArgs", vec![i(1), i(2), i(3)]);
    fails(ge(vec![], 0), "InvalidArgs", vec![]);
}

#[test]
fn not_negates_truthiness() {
    assert_eq!(not(vec![sym("false")], 0), Ok(sym("true")));
    assert_eq!(not(vec![sym("nil")], 0), Ok(sym("true")));
    assert_eq!(not(vec![i(0)], 0), Ok(sym("false")));
    fails(not(vec![], 0), "InvalidArgs", vec![]);
}

#[test]
fn type_names() {
    let cases = vec![
        (i(1), "int"),
        (s("x"), "string"),
        (sym("x"), "symbol"),
        (sym("true"), "bool"),
        (sym("false"), "bool"),
        (sym("nil"), "nil"),
        (l(vec![i(1)]), "list"),
        (l(vec![]), "list"),
        (l(vec![sym("err")]), "err"),
        (Value::error("K", vec![]), "err"),
        (t(vec![]), "table"),
        (Value::function(Builtin::Add), "function"),
        (Value::Function { fn_ref: Builtin::Add, is_macro: true }, "macro"),
        (
            Value::Lambda {
                args: Box::new(sym("x")),
                body: Box::new(sym("x")),
                captures: 0,
                is_macro: false,
            },
            "function",
        ),
        (
            Value::Lambda {
                args: Box::new(sym("x")),
                body: Box::new(sym("x")),
                captures: 0,
                is_macro: true,
            },
            "macro",
        ),
        (Value::Atom(0), "atom"),
    ];
    for (value, name) in cases {
        assert_eq!(typ(vec![value.clone()], 0), Ok(sym(name)));
        assert_eq!(type_is(name, vec![value.clone()], 0), Ok(sym("true")));
        assert_eq!(type_is("other", vec![value], 0), Ok(sym("false")));
    }
    fails(typ(vec![], 0), "InvalidArgs", vec![]);
    fails(type_is("int", vec![i(1), i(2)], 0), "InvalidArgs", vec![i(1), i(2)]);
    assert_eq!(TypeTag::Error.name(), "err");
    assert_eq!(TypeTag::Bool.name(), "bool");
}

#[test]
fn list_collects_its_arguments() {
    assert_eq!(list(vec![], 0), Ok(l(vec![])));
    assert_eq!(list(vec![i(1), s("a")], 0), Ok(l(vec![i(1), s("a")])));
}

#[test]
fn first_last_and_rest() {
    let abc = l(vec![i(1), i(2), i(3)]);
    assert_eq!(first(vec![abc.clone()], 0), Ok(i(1)));
    assert_eq!(last(vec![abc.clone()], 0), Ok(i(3)));
    assert_eq!(rest(vec![abc], 0), Ok(l(vec![i(2), i(3)])));
    assert_eq!(first(vec![l(vec![])], 0), Ok(sym("nil")));
    assert_eq!(last(vec![l(vec![])], 0), Ok(sym("nil")));
    assert_eq!(rest(vec![l(vec![])], 0), Ok(l(vec![])));
    assert_eq!(first(vec![s("héllo")], 0), Ok(s("h")));
    assert_eq!(last(vec![s("héllö")], 0), Ok(s("ö")));
    assert_eq!(rest(vec![s("héllo")], 0), Ok(s("éllo")));
    assert_eq!(first(vec![s("")], 0), Ok(sym("nil")));
    assert_eq!(last(vec![s("")], 0), Ok(sym("nil")));
    assert_eq!(rest(vec![s("")], 0), Ok(s("")));
    assert_eq!(first(vec![sym("nil")], 0), Ok(sym("nil")));
    assert_eq!(last(vec![sym("nil")], 0), Ok(sym("nil")));
    assert_eq!(rest(vec![sym("nil")], 0), Ok(sym("nil")));
    fails(first(vec![i(1)], 0), "InvalidArgs", vec![i(1)]);
    fails(last(vec![sym("x")], 0), "InvalidArgs", vec![sym("x")]);
    fails(rest(vec![i(1)], 0), "NotAList", vec![i(1)]);
    fails(first(vec![], 0), "InvalidArgs", vec![]);
    fails(rest(vec![i(1), i(2)], 0), "InvalidArgs", vec![i(1), i(2)]);
}

#[test]
fn nth_indexes_from_zero() {
    let abc = l(vec![s("a"), s("b"), s("c")]);
    assert_eq!(nth(vec![abc.clone(), i(0)], 0), Ok(s("a")));
    assert_eq!(nth(vec![abc.clone(), i(2)], 0), Ok(s("c")));
    fails(nth(vec![abc.clone(), i(3)], 0), "InvalidIndex", vec![abc.clone(), i(3)]);
    fails(nth(vec![abc.clone(), i(-1)], 0), "InvalidIndex", vec![abc.clone(), i(-1)]);
    assert_eq!(nth(vec![s("héllo"), i(1)], 0), Ok(s("é")));
    fails(nth(vec![s("ab"), i(2)], 0), "InvalidIndex", vec![s("ab"), i(2)]);
    fails(nth(vec![abc.clone(), s("1")], 0), "NotANumber", vec![s("1")]);
    fails(nth(vec![i(5), i(0)], 0), "NotAList", vec![i(5)]);
    fails(nth(vec![abc.clone()], 0), "InvalidArgs", vec![abc]);
}

#[test]
fn count_counts_elements_characters_and_entries() {
    assert_eq!(count(vec![l(vec![i(1), i(2)])], 0), Ok(i(2)));
    assert_eq!(count(vec![l(vec![])], 0), Ok(i(0)));
    assert_eq!(count(vec![s("héllo")], 0), Ok(i(5)));
    assert_eq!(count(vec![t(vec![(i(1), i(2))])], 0), Ok(i(1)));
    fails(count(vec![i(1)], 0), "NotASequence", vec![i(1)]);
    fails(count(vec![sym("nil")], 0), "NotASequence", vec![sym("nil")]);
    fails(count(vec![], 0), "InvalidArgs", vec![]);
}

#[test]
fn cons_prepends() {
    assert_eq!(cons(vec![i(1), l(vec![i(2)])], 0), Ok(l(vec![i(1), i(2)])));
    assert_eq!(cons(vec![l(vec![]), l(vec![])], 0), Ok(l(vec![l(vec![])])));
    fails(cons(vec![i(1), i(2)], 0), "InvalidArgs", vec![i(1), i(2)]);
    fails(cons(vec![i(1)], 0), "InvalidArgs", vec![i(1)]);
}

#[test]
fn tables_are_extended_and_reduced() {
    let base = t(vec![(sym("a"), i(1))]);
    assert_eq!(
        assoc(vec![base.clone(), sym("b"), i(2), sym("a"), i(3)], 0),
        Ok(t(vec![(sym("a"), i(3)), (sym("b"), i(2))]))
    );
    assert_eq!(assoc(vec![base.clone()], 0), Ok(base.clone()));
    fails(assoc(vec![base.clone(), sym("b")], 0), "InvalidArgs", vec![base.clone(), sym("b")]);
    fails(assoc(vec![i(1), i(2), i(3)], 0), "NotATable", vec![i(1)]);
    fails(assoc(vec![], 0), "InvalidArgs", vec![]);
    let two_keys = t(vec![(sym("a"), i(1)), (sym("b"), i(2))]);
    assert_eq!(dissoc(vec![two_keys.clone(), sym("a")], 0), Ok(t(vec![(sym("b"), i(2))])));
    assert_eq!(dissoc(vec![two_keys.clone(), sym("z")], 0), Ok(two_keys.clone()));
    assert_eq!(dissoc(vec![two_keys.clone(), sym("b"), sym("a")], 0), Ok(t(vec![])));
    fails(dissoc(vec![two_keys.clone()], 0), "InvalidArgs", vec![two_keys.clone()]);
    fails(dissoc(vec![i(1), i(2)], 0), "NotATable", vec![i(1)]);
}

#[test]
fn tables_are_queried() {
    let table = t(vec![(sym("a"), i(1)), (l(vec![i(1)]), s("list"))]);
    assert_eq!(get(vec![table.clone(), sym("a")], 0), Ok(i(1)));
    assert_eq!(get(vec![table.clone(), l(vec![i(1)])], 0), Ok(s("list")));
    assert_eq!(get(vec![table.clone(), sym("z")], 0), Ok(sym("nil")));
    fails(get(vec![i(1), i(2)], 0), "InvalidArgs", vec![i(1), i(2)]);
    assert_eq!(keys(vec![table.clone()], 0), Ok(l(vec![sym("a"), l(vec![i(1)])])));
    assert_eq!(values(vec![table.clone()], 0), Ok(l(vec![i(1), s("list")])));
    fails(keys(vec![i(1)], 0), "InvalidArgs", vec![i(1)]);
    fails(values(vec![], 0), "InvalidArgs", vec![]);
    assert_eq!(contains(vec![table.clone(), sym("a")], 0), Ok(sym("true")));
    assert_eq!(contains(vec![table.clone(), sym("b")], 0), Ok(sym("false")));
    fails(contains(vec![table.clone()], 0), "InvalidArgs", vec![table]);
}

#[test]
fn table_entries_keep_their_place() {
    let mut entries = vec![(sym("a"), i(1)), (sym("b"), i(2))];
    assert_eq!(find_entry(&entries, &sym("b")), Some(1));
    assert_eq!(find_entry(&entries, &sym("c")), None);
    insert_entry(&mut entries, sym("a"), i(9));
    insert_entry(&mut entries, sym("c"), i(3));
    assert_eq!(entries, vec![(sym("a"), i(9)), (sym("b"), i(2)), (sym("c"), i(3))]);
    assert_eq!(clone_entries(&entries), entries);
    remove_entry(&mut entries, &sym("b"));
    remove_entry(&mut entries, &sym("z"));
    assert_eq!(entries, vec![(sym("a"), i(9)), (sym("c"), i(3))]);
}

#[test]
fn str_concatenates_display_forms() {
    assert_eq!(str(vec![], 0), Ok(s("")));
    assert_eq!(
        str(vec![s("a"), i(1), sym("b"), l(vec![i(1), s("x")])], 0),
        Ok(s("a1b(1 x)"))
    );
    assert_eq!(str(vec![t(vec![(sym("k"), i(1))])], 0), Ok(s("{k 1}")));
}

#[test]
fn symbol_and_chr() {
    assert_eq!(symbol(vec![s("name")], 0), Ok(sym("name")));
    fails(symbol(vec![i(1)], 0), "InvalidArgs", vec![i(1)]);
    fails(symbol(vec![], 0), "InvalidArgs", vec![]);
    assert_eq!(chr(vec![i(97)], 0), Ok(s("a")));
    assert_eq!(chr(vec![i(233)], 0), Ok(s("é")));
    assert_eq!(chr(vec![i(0x10FFFF)], 0), Ok(s("\u{10FFFF}")));
    assert_eq!(chr(vec![i(0)], 0), Ok(s("\0")));
    fails(chr(vec![i(-1)], 0), "InvalidChar", vec![i(-1)]);
    fails(chr(vec![i(0xD800)], 0), "InvalidChar", vec![i(0xD800)]);
    fails(chr(vec![i(0x110000)], 0), "InvalidChar", vec![i(0x110000)]);
    fails(chr(vec![s("a")], 0), "InvalidArgs", vec![s("a")]);
}

#[test]
fn int_parses_decimal_text() {
    assert_eq!(to_int(vec![s("42")], 0), Ok(i(42)));
    assert_eq!(to_int(vec![s("-42")], 0), Ok(i(-42)));
    assert_eq!(to_int(vec![s("+7")], 0), Ok(i(7)));
    assert_eq!(to_int(vec![s("2147483647")], 0), Ok(i(i32::MAX)));
    assert_eq!(to_int(vec![s("-2147483648")], 0), Ok(i(i32::MIN)));
    assert_eq!(to_int(vec![i(5)], 0), Ok(i(5)));
    fails(to_int(vec![s("")], 0), "ParseError", vec![s(""), sym("EmptyString")]);
    fails(to_int(vec![s("4x")], 0), "ParseError", vec![s("4x"), sym("InvalidDigit")]);
    fails(to_int(vec![s("-")], 0), "ParseError", vec![s("-"), sym("InvalidDigit")]);
    fails(
        to_int(vec![s("2147483648")], 0),
        "ParseError",
        vec![s("2147483648"), sym("PositiveOverflow")],
    );
    fails(
        to_int(vec![s("-2147483649")], 0),
        "ParseError",
        vec![s("-2147483649"), sym("NegativeOverflow")],
    );
    fails(to_int(vec![sym("x")], 0), "InvalidArgs", vec![sym("x")]);
    fails(to_int(vec![], 0), "InvalidArgs", vec![]);
}

#[test]
fn parse_i32_agrees_with_the_standard_library() {
    for text in [
        "", "0", "-0", "+0", "007", "12", "-12", "+12", "+", "-", "--1", "1-", "a", "1a", " 1",
        "2147483647", "2147483648", "-2147483648", "-2147483649", "99999999999", "99999999999x",
        "-99999999999", "1_000", "١٢",
    ] {
        let expected = text.parse::<i32>().map_err(|e| match e.kind() {
            std::num::IntErrorKind::Empty => IntFailure::Empty,
            std::num::IntErrorKind::InvalidDigit => IntFailure::InvalidDigit,
            std::num::IntErrorKind::PosOverflow => IntFailure::PosOverflow,
            _ => IntFailure::NegOverflow,
        });
        assert_eq!(parse_i32(text), expected, "{text:?}");
    }
}

#[test]
fn macro_sets_the_flag() {
    assert_eq!(
        as_macro(vec![Value::function(Builtin::Add)], 0),
        Ok(Value::Function { fn_ref: Builtin::Add, is_macro: true })
    );
    assert_eq!(
        as_macro(vec![Value::Function { fn_ref: Builtin::Add, is_macro: true }], 0),
        Ok(Value::Function { fn_ref: Builtin::Add, is_macro: true })
    );
    let lambda = |is_macro: bool| Value::Lambda {
        args: Box::new(sym("x")),
        body: Box::new(sym("x")),
        captures: 4,
        is_macro,
    };
    match as_macro(vec![lambda(false)], 0) {
        Ok(Value::Lambda { captures, is_macro, .. }) => {
            assert_eq!(captures, 4);
            assert!(is_macro);
        }
        other => panic!("a macro, not {other:?}"),
    }
    fails(as_macro(vec![i(1)], 0), "NotAFunction", vec![i(1)]);
    fails(as_macro(vec![], 0), "InvalidArgs", vec![]);
}

#[test]
fn findall_lists_the_groups_of_each_match() {
    assert_eq!(
        findall(vec![s("[0-9]+"), s("a1b22c333")], 0),
        Ok(l(vec![l(vec![s("1")]), l(vec![s("22")]), l(vec![s("333")])]))
    );
    assert_eq!(
        findall(vec![s("(a)(b)?"), s("ab a")], 0),
        Ok(l(vec![l(vec![s("ab"), s("a"), s("b")]), l(vec![s("a"), s("a")])]))
    );
    assert_eq!(findall(vec![s("x"), s("abc")], 0), Ok(l(vec![])));
    assert_eq!(findall(vec![s("abc"), s("abc")], 0), Ok(l(vec![l(vec![s("abc")])])));
    match findall(vec![s("("), s("abc")], 0) {
        Err(Value::List(items)) => {
            assert_eq!(items[0], sym("err"));
            assert_eq!(items[1], sym("InvalidRegex"));
            assert_eq!(items.len(), 3);
            assert!(matches!(items[2], Value::String(_)));
        }
        other => panic!("an error, not {other:?}"),
    }
    match findall(vec![s("\\w{100000}"), s("abc")], 0) {
        Err(Value::List(items)) => {
            assert_eq!(items[1], sym("RegexTooLong"));
            assert_eq!(items.len(), 3);
        }
        other => panic!("an error, not {other:?}"),
    }
    fails(findall(vec![s("a")], 0), "InvalidArgs", vec![s("a")]);
    fails(findall(vec![i(1), s("a")], 0), "InvalidArgs", vec![i(1), s("a")]);
}

#[test]
fn findall_result_shapes_what_the_search_gave() {
    let matches = vec![
        vec![Some("ab".to_string()), None, Some("b".to_string())],
        vec![None, None],
        vec![Some("c".to_string())],
    ];
    assert_eq!(
        findall_result(Ok(matches)),
        Ok(l(vec![l(vec![s("ab"), s("b")]), l(vec![s("c")])]))
    );
    assert_eq!(findall_result(Ok(vec![])), Ok(l(vec![])));
    fails(findall_result(Err(RegexFailure::TooBig(10))), "RegexTooLong", vec![i(10)]);
    fails(
        findall_result(Err(RegexFailure::TooBig(3_000_000_000))),
        "RegexTooLong",
        vec![s("3000000000")],
    );
    fails(
        findall_result(Err(RegexFailure::Syntax("bad".to_string()))),
        "InvalidRegex",
        vec![s("bad")],
    );
    fails(findall_result(Err(RegexFailure::Other)), "RegexError", vec![]);
}

#[test]
fn atoms_through_the_operations() {
    let mut interp = Interp::new();
    assert_eq!(atom(vec![i(1)], 0, &mut interp), Ok(Value::Atom(0)));
    assert_eq!(atom(vec![s("x")], 0, &mut interp), Ok(Value::Atom(1)));
    fails(atom(vec![], 0, &mut interp), "InvalidArgs", vec![]);
    assert_eq!(set_atom(vec![Value::Atom(0), i(2)], 0, &mut interp), Ok(i(1)));
    assert_eq!(set_atom(vec![Value::Atom(0), i(3)], 0, &mut interp), Ok(i(2)));
    fails(
        set_atom(vec![Value::Atom(9), i(3)], 0, &mut interp),
        "InvalidArgs",
        vec![Value::Atom(9), i(3)],
    );
    fails(set_atom(vec![i(0), i(3)], 0, &mut interp), "InvalidArgs", vec![i(0), i(3)]);
    assert_eq!(
        inspect_atom(
            vec![Value::Atom(0), Value::function(Builtin::Sub)],
            0,
            &mut interp,
            FUEL
        ),
        Ok(i(-3))
    );
    assert_eq!(interp.atom_value(0), Some(i(-3)));
    fails(
        inspect_atom(vec![Value::Atom(0), i(1)], 0, &mut interp, FUEL),
        "NotAFunction",
        vec![i(1)],
    );
    assert_eq!(interp.atom_value(0), Some(i(-3)));
    fails(inspect_atom(vec![Value::Atom(0)], 0, &mut interp, FUEL), "InvalidArgs", vec![Value::Atom(0)]);
}

#[test]
fn print_input_doc_help_and_quit() {
    let mut interp = Interp::new();
    assert_eq!(print(vec![i(1), s("a b"), l(vec![s("c")])], 0, &mut interp), Ok(sym("nil")));
    assert_eq!(interp.output, vec!["1 a b (c)".to_string()]);
    interp.input.push("typed\n".to_string());
    assert_eq!(input(vec![], 0, &mut interp), Ok(s("typed\n")));
    assert_eq!(input(vec![i(1)], 0, &mut interp), Ok(s("")));
    assert_eq!(doc(vec![s("about f")], 0, &mut interp), Ok(sym("nil")));
    assert_eq!(interp.pending_doc, Some("about f".to_string()));
    fails(doc(vec![i(1)], 0, &mut interp), "InvalidArgs", vec![i(1)]);
    interp.attach_doc("f");
    assert_eq!(help(vec![sym("f")], 0, &interp), Ok(s("about f")));
    assert_eq!(help(vec![s("f")], 0, &interp), Ok(s("about f")));
    assert_eq!(help(vec![sym("g")], 0, &interp), Ok(sym("nil")));
    assert_eq!(help(vec![i(1)], 0, &interp), Ok(sym("nil")));
    fails(help(vec![], 0, &interp), "InvalidArgs", vec![]);
    assert_eq!(quit(vec![], 0, &mut interp), Ok(sym("nil")));
    assert!(interp.quit);
}

#[test]
fn apply_calls_functions_and_lambdas() {
    let mut interp = default_env(Vec::new());
    let plus = Value::function(Builtin::Add);
    assert_eq!(apply(vec![plus.clone(), l(vec![i(1), i(2)])], 0, &mut interp, FUEL), Ok(i(3)));
    fails(apply(vec![plus.clone(), i(1)], 0, &mut interp, FUEL), "NotAList", vec![i(1)]);
    fails(apply(vec![plus.clone()], 0, &mut interp, FUEL), "InvalidArgs", vec![plus.clone()]);
    fails(apply(vec![i(1), l(vec![])], 0, &mut interp, FUEL), "NotAFunction", vec![i(1)]);
    let as_macro = Value::Function { fn_ref: Builtin::Add, is_macro: true };
    fails(
        apply(vec![as_macro.clone(), l(vec![])], 0, &mut interp, FUEL),
        "NotAFunction",
        vec![as_macro],
    );
    let double = Value::Lambda {
        args: Box::new(l(vec![sym("x")])),
        body: Box::new(l(vec![sym("+"), sym("x"), sym("x")])),
        captures: 0,
        is_macro: false,
    };
    assert_eq!(apply_value(&double, l(vec![i(21)]), 0, &mut interp, FUEL), Ok(i(42)));
    fails(
        apply_value(&double, l(vec![]), 0, &mut interp, FUEL),
        "PatternMismatch",
        vec![l(vec![sym("x")])],
    );
    assert_eq!(apply_value(&plus, l(vec![i(1)]), 0, &mut interp, 0), Err(out_of_steps()));
    assert_eq!(apply_value(&plus, l(vec![i(1)]), 0, &mut interp, 1), Ok(i(1)));
}

#[test]
fn map_calls_the_function_on_each_item() {
    let mut interp = default_env(Vec::new());
    let negate = Value::function(Builtin::Sub);
    assert_eq!(
        map_over(vec![negate.clone(), l(vec![i(1), i(2)])], 0, &mut interp, FUEL),
        Ok(l(vec![i(-1), i(-2)]))
    );
    assert_eq!(
        map_over(vec![Value::function(Builtin::Str), s("ab")], 0, &mut interp, FUEL),
        Ok(l(vec![s("a"), s("b")]))
    );
    assert_eq!(map_over(vec![negate.clone(), l(vec![])], 0, &mut interp, FUEL), Ok(l(vec![])));
    fails(
        map_over(vec![negate.clone(), l(vec![i(1), s("x")])], 0, &mut interp, FUEL),
        "NotANumber",
        vec![s("x")],
    );
    fails(map_over(vec![negate.clone(), i(1)], 0, &mut interp, FUEL), "NotASequence", vec![i(1)]);
    fails(map_over(vec![negate.clone()], 0, &mut interp, FUEL), "InvalidArgs", vec![negate]);
}

#[test]
fn eval_evaluates_in_the_given_frame() {
    let mut interp = default_env(Vec::new());
    interp.define(0, "x", i(5));
    let form = l(vec![sym("+"), sym("x"), i(1)]);
    assert_eq!(eval(vec![form.clone()], 0, &mut interp, FUEL), Ok(i(6)));
    assert_eq!(eval(vec![form.clone(), sym("x")], 0, &mut interp, FUEL), Ok(l(vec![i(6), i(5)])));
    assert_eq!(eval(vec![], 0, &mut interp, FUEL), Ok(l(vec![])));
    assert_eq!(eval_ref(&form, 0, &mut interp, FUEL), Ok(i(6)));
    assert_eq!(eval_all(&vec![form.clone(), i(2), sym("x")], 1, 3, 0, &mut interp, FUEL), Ok(vec![i(2), i(5)]));
    assert_eq!(
        eval_all(&vec![sym("y"), i(2)], 0, 2, 0, &mut interp, FUEL),
        Err(Value::error("UnresolvedIdentifier", vec![sym("y")]))
    );
}

#[test]
fn call_builtin_dispatches() {
    let mut interp = default_env(Vec::new());
    assert_eq!(call_builtin(Builtin::Mul, vec![i(6), i(7)], 0, &mut interp, FUEL), Ok(i(42)));
    assert_eq!(call_builtin(Builtin::Rem, vec![i(7), i(4)], 0, &mut interp, FUEL), Ok(i(3)));
    assert_eq!(
        call_builtin(Builtin::TypeIs(TypeTag::Nil), vec![sym("nil")], 0, &mut interp, FUEL),
        Ok(sym("true"))
    );
    assert_eq!(
        call_builtin(Builtin::TypeIs(TypeTag::Bool), vec![sym("nil")], 0, &mut interp, FUEL),
        Ok(sym("false"))
    );
    assert_eq!(call_builtin(Builtin::Int, vec![s("12")], 0, &mut interp, FUEL), Ok(i(12)));
    assert_eq!(call_builtin(Builtin::Atom, vec![i(1)], 0, &mut interp, FUEL), Ok(Value::Atom(0)));
    assert_eq!(call_builtin(Builtin::Quit, vec![], 0, &mut interp, FUEL), Ok(sym("nil")));
    assert!(interp.quit);
}

#[test]
fn destructure_binds_patterns() {
    let mut interp = Interp::new();
    interp.frames.push(lisp_core::env::EnvData { parent: None, data: Vec::new() });
    assert_eq!(destructure(&sym("x"), i(1), 0, &mut interp), Some(()));
    assert_eq!(interp.lookup(0, "x"), Some(i(1)));
    let pattern = l(vec![sym("a"), l(vec![sym("b")]), sym("c")]);
    assert_eq!(
        destructure(&pattern, l(vec![i(1), l(vec![i(2), i(3)]), i(4), i(5)]), 0, &mut interp),
        Some(())
    );
    assert_eq!(interp.lookup(0, "a"), Some(i(1)));
    assert_eq!(interp.lookup(0, "b"), Some(i(2)));
    assert_eq!(interp.lookup(0, "c"), Some(i(4)));
    assert_eq!(destructure(&pattern, l(vec![i(1)]), 0, &mut interp), None);
    assert_eq!(destructure(&pattern, i(1), 0, &mut interp), None);
    assert_eq!(destructure(&i(1), i(1), 0, &mut interp), None);
    assert_eq!(
        destructure(&l(vec![sym("p"), l(vec![sym("q")])]), l(vec![i(7), i(8)]), 0, &mut interp),
        None
    );
    assert_eq!(interp.lookup(0, "p"), Some(i(7)));
    assert_eq!(interp.lookup(0, "q"), None);
}

#[test]
fn quasiquote_fills_in_templates() {
    let mut interp = default_env(Vec::new());
    interp.define(0, "x", i(5));
    let template = l(vec![sym("a"), l(vec![sym("unquote"), sym("x")]), l(vec![sym("b"), l(vec![sym("unquote"), l(vec![sym("+"), sym("x"), i(1)])])])]);
    assert_eq!(
        template.quasiquote(0, &mut interp, FUEL),
        Ok(l(vec![sym("a"), i(5), l(vec![sym("b"), i(6)])]))
    );
    assert_eq!(sym("x").quasiquote(0, &mut interp, FUEL), Ok(sym("x")));
    let table = t(vec![(sym("k"), l(vec![sym("unquote"), sym("x")]))]);
    assert_eq!(table.quasiquote(0, &mut interp, FUEL), Ok(table.clone()));
    fails(
        l(vec![sym("unquote")]).quasiquote(0, &mut interp, FUEL),
        "InvalidArgs",
        vec![l(vec![sym("unquote")])],
    );
    fails(
        l(vec![l(vec![sym("unquote"), sym("nope")])]).quasiquote(0, &mut interp, FUEL),
        "UnresolvedIdentifier",
        vec![sym("nope")],
    );
}

#[test]
fn one_step_at_a_time() {
    let mut interp = default_env(Vec::new());
    assert_eq!(
        match step(&i(1), 0, &mut interp, 10) {
            Step::Done(r) => r,
            _ => panic!("done"),
        },
        Ok(i(1))
    );
    let branch = l(vec![sym("if"), sym("true"), i(1), i(2)]);
    match step(&branch, 0, &mut interp, 10) {
        Step::Tail { syn, env } => {
            assert_eq!(syn, i(1));
            assert_eq!(env, 0);
        }
        _ => panic!("a tail position"),
    }
    let consing = l(vec![sym("cons"), i(1), l(vec![sym("list")])]);
    match step(&consing, 0, &mut interp, 10) {
        Step::Cons { head, syn, env } => {
            assert_eq!(head, i(1));
            assert_eq!(syn, l(vec![sym("list")]));
            assert_eq!(env, 0);
        }
        _ => panic!("a cons"),
    }
    let binding = l(vec![sym("let*"), l(vec![sym("a"), i(1)]), sym("a")]);
    match step(&binding, 0, &mut interp, 10) {
        Step::Tail { syn, env } => {
            assert_eq!(syn, sym("a"));
            assert_eq!(env, 1);
            assert_eq!(interp.lookup(1, "a"), Some(i(1)));
        }
        _ => panic!("a tail position"),
    }
}

#[test]
fn helpers_on_texts_and_sequences() {
    assert_eq!(to_chars("héy"), vec!['h', 'é', 'y']);
    assert_eq!(string_of(&vec!['a', 'b', 'c', 'd'], 1, 3), "bc");
    assert_eq!(string_of(&vec!['a'], 1, 1), "");
    assert_eq!(char_string('é'), "é");
    assert_eq!(one(i(1)), vec![i(1)]);
    assert_eq!(two(i(1), i(2)), vec![i(1), i(2)]);
    assert_eq!(prepend(i(0), &vec![i(1), i(2)]), vec![i(0), i(1), i(2)]);
    assert_eq!(clone_values(&vec![i(1), s("a")]), vec![i(1), s("a")]);
    assert_eq!(clone_range(&vec![i(1), i(2), i(3), i(4)], 1, 3), vec![i(2), i(3)]);
}
