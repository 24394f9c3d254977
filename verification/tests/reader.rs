use lisp_core::line_count::{locate, LineCount, LineCountable};
use lisp_core::parser::{emit, parse, read_value, Level, Opener, Wrap};
use lisp_core::types::Value;

fn sym(name: &str) -> Value {
    Value::symbol(name)
}

fn list(items: Vec<Value>) -> Value {
    Value::List(items)
}

fn program(forms: Vec<Value>) -> Value {
    let mut items = vec![sym("do")];
    items.extend(forms);
    Value::List(items)
}

#[test]
fn empty_text_is_an_empty_program() {
    assert_eq!(parse(""), Ok(program(vec![])));
    assert_eq!(parse("  \n\t "), Ok(program(vec![])));
}

#[test]
fn atoms_are_read() {
    assert_eq!(parse("42"), Ok(program(vec![Value::Int(42)])));
    assert_eq!(parse("0"), Ok(program(vec![Value::Int(0)])));
    assert_eq!(parse("name"), Ok(program(vec![sym("name")])));
    assert_eq!(parse("\"text\""), Ok(program(vec![Value::String("text".to_string())])));
    assert_eq!(parse("a-b? +"), Ok(program(vec![sym("a-b?"), sym("+")])));
    assert_eq!(parse("-5"), Ok(program(vec![sym("-5")])));
    assert_eq!(parse("a'b"), Ok(program(vec![sym("a'b")])));
    assert_eq!(parse(":key"), Ok(program(vec![sym(":key")])));
}

#[test]
fn integer_literals_wrap_to_32_bits() {
    assert_eq!(parse("2147483647"), Ok(program(vec![Value::Int(2147483647)])));
    assert_eq!(parse("2147483648"), Ok(program(vec![Value::Int(-2147483648)])));
    assert_eq!(parse("4294967295"), Ok(program(vec![Value::Int(-1)])));
    assert_eq!(parse("4294967296"), Ok(program(vec![Value::Int(0)])));
    assert_eq!(parse("12'x"), Ok(program(vec![Value::Int(12), list(vec![sym("quote"), sym("x")])])));
}

#[test]
fn string_escapes_are_resolved() {
    assert_eq!(parse("\"a\\nb\""), Ok(program(vec![Value::String("a\nb".to_string())])));
    assert_eq!(parse("\"a\\\\b\""), Ok(program(vec![Value::String("a\\b".to_string())])));
    assert_eq!(parse("\"a\\\"b\""), Ok(program(vec![Value::String("a\\\"b".to_string())])));
    assert_eq!(parse("\"a\\tb\""), Ok(program(vec![Value::String("a\\tb".to_string())])));
    assert_eq!(parse("\"\""), Ok(program(vec![Value::String(String::new())])));
    assert_eq!(parse("\"a\\\\nb\""), Ok(program(vec![Value::String("a\\\nb".to_string())])));
}

#[test]
fn delimiters_build_lists_and_tables() {
    assert_eq!(
        parse("(a (b 1) ())"),
        Ok(program(vec![list(vec![
            sym("a"),
            list(vec![sym("b"), Value::Int(1)]),
            list(vec![]),
        ])]))
    );
    assert_eq!(
        parse("[1 2]"),
        Ok(program(vec![list(vec![sym("list"), Value::Int(1), Value::Int(2)])]))
    );
    assert_eq!(
        parse("{a 1 b 2}"),
        Ok(program(vec![Value::Table(vec![
            (sym("a"), Value::Int(1)),
            (sym("b"), Value::Int(2)),
        ])]))
    );
    assert_eq!(
        parse("{a 1 a 2}"),
        Ok(program(vec![Value::Table(vec![(sym("a"), Value::Int(2))])]))
    );
    assert_eq!(parse("{}"), Ok(program(vec![Value::Table(vec![])])));
}

#[test]
fn reader_macros_wrap_the_next_value() {
    assert_eq!(parse("'x"), Ok(program(vec![list(vec![sym("quote"), sym("x")])])));
    assert_eq!(parse("`x"), Ok(program(vec![list(vec![sym("quasiquote"), sym("x")])])));
    assert_eq!(parse("~x"), Ok(program(vec![list(vec![sym("unquote"), sym("x")])])));
    assert_eq!(
        parse("'`~x"),
        Ok(program(vec![list(vec![
            sym("quote"),
            list(vec![sym("quasiquote"), list(vec![sym("unquote"), sym("x")])]),
        ])]))
    );
    assert_eq!(
        parse("'(a) b"),
        Ok(program(vec![list(vec![sym("quote"), list(vec![sym("a")])]), sym("b")]))
    );
    assert_eq!(
        parse("(a '{k v})"),
        Ok(program(vec![list(vec![
            sym("a"),
            list(vec![sym("quote"), Value::Table(vec![(sym("k"), sym("v"))])]),
        ])]))
    );
    assert_eq!(parse("' # note\n x"), Ok(program(vec![list(vec![sym("quote"), sym("x")])])));
}

#[test]
fn comments_are_skipped_and_doc_comments_kept() {
    assert_eq!(parse("# nothing\n1"), Ok(program(vec![Value::Int(1)])));
    assert_eq!(parse("1 # trailing"), Ok(program(vec![Value::Int(1)])));
    assert_eq!(parse("a#b\nc"), Ok(program(vec![sym("a"), sym("c")])));
    let doc = |text: &str| list(vec![sym("doc"), Value::String(text.to_string())]);
    assert_eq!(parse("## hello\n1"), Ok(program(vec![doc("hello"), Value::Int(1)])));
    assert_eq!(parse("##hello"), Ok(program(vec![doc("hello")])));
    assert_eq!(parse("##  two"), Ok(program(vec![doc(" two")])));
    assert_eq!(parse("(a ## in\n b)"), Ok(program(vec![list(vec![sym("a"), doc("in"), sym("b")])])));
    assert_eq!(parse("##"), Ok(program(vec![doc("")])));
}

#[test]
fn unmatched_delimiters_are_reported_with_their_place() {
    assert_eq!(parse(")"), Err("Unmatched closing parenthesis at 0:1".to_string()));
    assert_eq!(parse("(a]"), Err("Unmatched closing square bracket at 0:3".to_string()));
    assert_eq!(parse("(a}"), Err("Unmatched closing curly bracket at 0:3".to_string()));
    assert_eq!(parse("{a)"), Err("Unmatched closing parenthesis at 0:3".to_string()));
    assert_eq!(parse("\n\n  )"), Err("Unmatched closing parenthesis at 2:3".to_string()));
    assert_eq!(parse("(a b"), Err("Unmatched opening parenthesis at 0:1".to_string()));
    assert_eq!(parse("(a\n [b"), Err("Unmatched opening square bracket at 1:2".to_string()));
    assert_eq!(parse("{"), Err("Unmatched opening curly bracket at 0:1".to_string()));
    assert_eq!(parse("(a ')"), Err("Unmatched closing parenthesis at 0:5".to_string()));
}

#[test]
fn other_errors_are_reported_with_their_place() {
    assert_eq!(
        parse("12x"),
        Err("Invalid character in int literal: `x`; 0:3".to_string())
    );
    assert_eq!(
        parse("(+ 1\n 2\"3)"),
        Err("Invalid character in int literal: `\"`; 1:3".to_string())
    );
    assert_eq!(parse("\"abc"), Err("Unmatched quote; 0:1".to_string()));
    assert_eq!(parse("x\n \"abc\\"), Err("Unmatched quote; 1:2".to_string()));
    assert_eq!(parse("{1}"), Err("Invalid table syntax at 0:3".to_string()));
    assert_eq!(parse("{1 2 3}"), Err("Invalid table syntax at 0:7".to_string()));
}

#[test]
fn read_value_gives_one_value_at_a_time() {
    let chars: Vec<char> = "x (y z) 7".chars().collect();
    let mut levels = vec![Level { items: Vec::new(), wraps: Vec::new(), opener: None, at: 0 }];
    let mut pos = 0;
    assert_eq!(read_value(&chars, &mut pos, &mut levels), Ok(Some(sym("x"))));
    assert_eq!(pos, 1);
    assert_eq!(read_value(&chars, &mut pos, &mut levels), Ok(Some(sym("y"))));
    assert_eq!(levels.len(), 2);
    assert_eq!(levels[1].opener, Some(Opener::Paren));
    emit(&mut levels, sym("y"));
    assert_eq!(read_value(&chars, &mut pos, &mut levels), Ok(Some(sym("z"))));
    emit(&mut levels, sym("z"));
    assert_eq!(
        read_value(&chars, &mut pos, &mut levels),
        Ok(Some(list(vec![sym("y"), sym("z")])))
    );
    assert_eq!(levels.len(), 1);
    assert_eq!(read_value(&chars, &mut pos, &mut levels), Ok(Some(Value::Int(7))));
    assert_eq!(read_value(&chars, &mut pos, &mut levels), Ok(None));
    assert_eq!(pos, chars.len());
}

#[test]
fn emit_applies_the_waiting_marks() {
    let mut levels = vec![Level {
        items: vec![Value::Int(1)],
        wraps: vec![Wrap::Quote, Wrap::Unquote],
        opener: None,
        at: 0,
    }];
    emit(&mut levels, sym("x"));
    assert_eq!(
        levels[0].items,
        vec![
            Value::Int(1),
            list(vec![sym("quote"), list(vec![sym("unquote"), sym("x")])]),
        ]
    );
    assert!(levels[0].wraps.is_empty());
}

#[test]
fn line_count_follows_rows_and_columns() {
    let mut cursor = LineCount::new("ab\nc".chars().collect());
    assert_eq!(cursor.next(), Some((0, 1, 'a')));
    assert_eq!(cursor.next(), Some((0, 2, 'b')));
    assert_eq!(cursor.next(), Some((1, 0, '\n')));
    assert_eq!(cursor.next(), Some((1, 1, 'c')));
    assert_eq!(cursor.next(), None);
    assert_eq!(cursor.next(), None);
    let mut from_str = "x\n".line_count();
    assert_eq!(from_str.next(), Some((0, 1, 'x')));
    assert_eq!(from_str.next(), Some((1, 0, '\n')));
    assert_eq!(from_str.next(), None);
    let mut from_vec = vec!['\n', '\n'].line_count();
    assert_eq!(from_vec.next(), Some((1, 0, '\n')));
    assert_eq!(from_vec.next(), Some((2, 0, '\n')));
}

#[test]
fn locate_counts_from_the_start() {
    let chars: Vec<char> = "ab\ncd\n".chars().collect();
    assert_eq!(locate(&chars, 0), (0, 0));
    assert_eq!(locate(&chars, 2), (0, 2));
    assert_eq!(locate(&chars, 3), (1, 0));
    assert_eq!(locate(&chars, 5), (1, 2));
    assert_eq!(locate(&chars, 6), (2, 0));
    assert_eq!(locate(&chars, 7), (0, 0));
}
