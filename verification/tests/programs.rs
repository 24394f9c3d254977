use lisp_core::env::{default_env, Interp};
use lisp_core::eval::eval;
use lisp_core::parser::parse;
use lisp_core::types::Value;

const FUEL: u64 = 10_000_000;

fn run_in(interp: &mut Interp, src: &str) -> Result<Value, Value> {
    let program = parse(src).expect("the program parses");
    eval(program, 0, interp, FUEL)
}

fn run(src: &str) -> Result<Value, Value> {
    let mut interp = default_env(Vec::new());
    run_in(&mut interp, src)
}

fn shown(src: &str) -> String {
    match run(src) {
        Ok(v) => v.to_debug_string(),
        Err(e) => format!("error {}", e.to_debug_string()),
    }
}

#[test]
fn sum_of_three() {
    assert_eq!(shown("(+ 1 2 3)"), "6");
}

#[test]
fn lambda_application() {
    assert_eq!(shown("((\\ (x y) (+ x y)) 3 4)"), "7");
}

#[test]
fn let_star_binds_in_order() {
    assert_eq!(shown("(let* (a 1 b (+ a 2)) (* a b))"), "3");
}

#[test]
fn try_catches_divide_by_zero() {
    assert_eq!(shown("(try* (/ 1 0) (catch* e (first (rest e))))"), "DivideByZero");
}

#[test]
fn quasiquote_with_unquote() {
    assert_eq!(shown("`(1 ~(+ 1 1) 3)"), "(1 2 3)");
}

#[test]
fn map_squares() {
    assert_eq!(shown("(map (\\ (x) (* x x)) (list 1 2 3))"), "(1 4 9)");
}

#[test]
fn count_of_table_literal() {
    assert_eq!(shown("(count {:a 1 :b 2})"), "2");
}

#[test]
fn self_evaluating_values() {
    assert_eq!(shown("42"), "42");
    assert_eq!(shown("\"text\""), "\"text\"");
    assert_eq!(shown("true"), "true");
    assert_eq!(shown("false"), "false");
    assert_eq!(shown("nil"), "nil");
    assert_eq!(shown("+"), "#<function>");
    assert_eq!(shown("(\\ (x) x)"), "#<function>");
    assert_eq!(shown("(atom 1)"), "#<atom>");
}

#[test]
fn truthiness_of_values() {
    assert_eq!(shown("(if false 1 2)"), "2");
    assert_eq!(shown("(if nil 1 2)"), "2");
    assert_eq!(shown("(if 0 1 2)"), "1");
    assert_eq!(shown("(if \"\" 1 2)"), "1");
    assert_eq!(shown("(if (list) 1 2)"), "1");
    assert_eq!(shown("(if 'other 1 2)"), "1");
    assert_eq!(shown("(if false 1)"), "nil");
    assert_eq!(shown("(not nil)"), "true");
    assert_eq!(shown("(not 0)"), "false");
}

#[test]
fn quotation_round_trip() {
    for text in ["7", "\"a b\"", "sym", "(1 (2 \"x\") y)", "()", "\"line\\nbreak\""] {
        let value = run(&format!("'{text}")).expect("a quoted value evaluates");
        assert_eq!(value.to_debug_string(), text);
        let again = run(&format!("'{}", value.to_debug_string())).expect("it reads back");
        assert_eq!(again, value);
    }
}

#[test]
fn quasiquote_without_unquote_is_quote() {
    assert_eq!(run("`(a (b 1) \"c\")"), run("'(a (b 1) \"c\")"));
    assert_eq!(shown("`x"), "x");
}

#[test]
fn equality_is_an_equivalence() {
    assert_eq!(shown("(= 1 1)"), "true");
    assert_eq!(shown("(= \"a\" \"a\")"), "true");
    assert_eq!(shown("(= 'a 'a)"), "true");
    assert_eq!(shown("(= (list 1 2) (list 1 2))"), "true");
    assert_eq!(shown("(= {1 2 3 4} {3 4 1 2})"), "true");
    assert_eq!(shown("(= {3 4 1 2} {1 2 3 4})"), "true");
    assert_eq!(shown("(= {1 2} {1 3})"), "false");
    assert_eq!(shown("(= 1 \"1\")"), "false");
    assert_eq!(shown("(=)"), "true");
    assert_eq!(shown("(= 5)"), "true");
    assert_eq!(shown("(= 1 1 1)"), "true");
    assert_eq!(shown("(= 1 1 2)"), "false");
    assert_eq!(shown("(= + +)"), "true");
    assert_eq!(shown("(= + *)"), "false");
    assert_eq!(shown("(= (\\ (x) x) (\\ (x) x))"), "true");
}

#[test]
fn tail_calls_do_not_grow_the_stack() {
    let src = "(def! loop (\\ (n) (if (= n 100000) n (loop (+ n 1))))) (loop 0)";
    assert_eq!(shown(src), "100000");
}

#[test]
fn stacked_cons_is_iterative() {
    let src = "(def! up (\\ (n) (if (= n 50000) (list) (cons n (up (+ n 1)))))) (count (up 0))";
    assert_eq!(shown(src), "50000");
}

#[test]
fn let_star_of_a_symbol_is_the_value() {
    assert_eq!(shown("(let* (p (+ 20 22)) p)"), "42");
    assert_eq!(shown("(let* (p \"s\") p)"), "\"s\"");
}

#[test]
fn destructuring_patterns() {
    assert_eq!(shown("(let* ((a b) (list 1 2 3)) (+ a b))"), "3");
    assert_eq!(shown("(let* ((a (b c)) (list 1 (list 2 3))) (list a b c))"), "(1 2 3)");
    assert_eq!(
        shown("(try* (let* ((a b) (list 1)) a) (catch* e (first (rest e))))"),
        "PatternMismatch"
    );
    assert_eq!(shown("((\\ (x) x) 1 2 3)"), "1");
    assert_eq!(shown("((\\ all all) 1 2 3)"), "(1 2 3)");
    assert_eq!(
        shown("(try* ((\\ (x y) x) 1) (catch* e (first (rest e))))"),
        "PatternMismatch"
    );
}

#[test]
fn builtin_failures_have_the_error_shape() {
    for failing in [
        "(/ 1 0)",
        "(+ 1 \"a\")",
        "(nth (list 1) 5)",
        "(chr -1)",
        "(int \"x\")",
        "(undefined-name)",
        "(1 2)",
        "(assoc 1 2 3)",
        "(count 5)",
        "(findall \"(\" \"a\")",
    ] {
        let wrapped = format!(
            "(try* {failing} (catch* e (list (err? e) (first e) (type e))))"
        );
        assert_eq!(shown(&wrapped), "(true err err)", "{failing}");
    }
}

#[test]
fn try_star_binds_the_error() {
    assert_eq!(shown("(try* (err K) (catch* e (type e)))"), "err");
    assert_eq!(shown("(try* (err K 1 (+ 1 1)) (catch* e e))"), "(err K 1 2)");
    assert_eq!(shown("(try* (err A) (catch* B e 1) (catch* A e 2))"), "2");
    assert_eq!(shown("(try* (err A) (catch* B e 1) (catch* e 3))"), "3");
    assert_eq!(shown("(try* 5 (catch* e 1))"), "5");
    assert_eq!(shown("(try* (try* (err A) (catch* B e 1)) (catch* e (first (rest e))))"), "A");
    assert_eq!(
        shown("(try* (try* (err A) (bad)) (catch* e (first (rest e))))"),
        "InvalidCatchBlock"
    );
}

#[test]
fn unhandled_errors_surface() {
    assert_eq!(shown("(err Boom 1)"), "error (err Boom 1)");
    assert_eq!(shown("missing"), "error (err UnresolvedIdentifier missing)");
    assert_eq!(shown("(5 1)"), "error (err NotAFunction 5)");
    assert_eq!(shown("(\\ (x))"), "error (err InvalidLambdaError \\ (x))");
}

#[test]
fn definitions_and_closures() {
    assert_eq!(shown("(def! x 5) (+ x 1)"), "6");
    assert_eq!(shown("(def! x 5)"), "nil");
    assert_eq!(shown("(def! make (\\ (n) (\\ (m) (+ n m)))) ((make 3) 4)"), "7");
    assert_eq!(shown("(def! f (\\ () y)) (def! y 9) (f)"), "9");
    assert_eq!(shown("(do)"), "nil");
    assert_eq!(shown("(do 1 2 3)"), "3");
    assert_eq!(shown("()"), "()");
}

#[test]
fn macros_receive_syntax() {
    let src = "(def! unless (macro (\\ (c body) (list 'if c nil body)))) (unless false 7)";
    assert_eq!(shown(src), "7");
    assert_eq!(shown("(macro? (macro (\\ (x) x)))"), "true");
    assert_eq!(shown("(function? (macro +))"), "false");
    assert_eq!(shown("(type (macro +))"), "macro");
    assert_eq!(
        shown("(try* (macro 5) (catch* e (first (rest e))))"),
        "NotAFunction"
    );
}

#[test]
fn cons_special_form() {
    assert_eq!(shown("(cons 1 (list 2 3))"), "(1 2 3)");
    assert_eq!(shown("(cons 1 (cons 2 (list)))"), "(1 2)");
    assert_eq!(shown("(try* (cons 1 2) (catch* e (first (rest e))))"), "NotAList");
    assert_eq!(shown("(apply cons (list 1 (list 2)))"), "(1 2)");
}

#[test]
fn atoms_hold_state() {
    assert_eq!(shown("(def! a (atom 1)) (set! a 2)"), "1");
    assert_eq!(shown("(def! a (atom 1)) (set! a 2) (inspect! a (\\ (x) (+ x 10)))"), "12");
    assert_eq!(shown("(def! a (atom 1)) (inspect! a (\\ (x) (* x 5))) (set! a 0)"), "5");
    assert_eq!(shown("(atom? (atom 1))"), "true");
    assert_eq!(shown("(type (atom 1))"), "atom");
}

#[test]
fn apply_and_eval() {
    assert_eq!(shown("(apply + (list 1 2 3))"), "6");
    assert_eq!(shown("(apply (\\ (a b) (* a b)) (list 6 7))"), "42");
    assert_eq!(shown("(def! x 3) (eval '(+ x 1))"), "4");
    assert_eq!(shown("(eval 1 2)"), "(1 2)");
    assert_eq!(shown("(let* (y 8) (eval 'y))"), "8");
}

#[test]
fn documentation_strings() {
    assert_eq!(shown("(help 'first)"), "\"Get the first value of a sequence.\"");
    assert_eq!(shown("## Adds one\n(def! inc (\\ (x) (+ x 1)))\n(help 'inc)"), "\"Adds one\"");
    assert_eq!(shown("(help 'nothing-here)"), "nil");
}

#[test]
fn print_and_input_go_through_the_interpreter() {
    let mut interp = default_env(Vec::new());
    interp.input.push("first line\n".to_string());
    let result = run_in(&mut interp, "(print 1 \"two\" 'three (list 4 \"five\")) (input)");
    assert_eq!(result, Ok(Value::String("first line\n".to_string())));
    assert_eq!(interp.output, vec!["1 two three (4 five)".to_string()]);
    assert_eq!(run_in(&mut interp, "(input)"), Ok(Value::String(String::new())));
    assert_eq!(run_in(&mut interp, "(print)"), Ok(Value::nil()));
    assert_eq!(interp.output.len(), 2);
    assert_eq!(interp.output[1], "");
}

#[test]
fn program_arguments_are_bound() {
    let mut interp = default_env(vec![Value::String("a".to_string()), Value::String("b".to_string())]);
    assert_eq!(
        run_in(&mut interp, "*ARGS*"),
        Ok(Value::List(vec![Value::String("a".to_string()), Value::String("b".to_string())]))
    );
}

#[test]
fn quit_is_noted() {
    let mut interp = default_env(Vec::new());
    assert!(!interp.quit);
    assert_eq!(run_in(&mut interp, "(quit)"), Ok(Value::nil()));
    assert!(interp.quit);
}

#[test]
fn evaluation_stops_at_the_step_limit() {
    let mut interp = default_env(Vec::new());
    let program = parse("(def! spin (\\ () (spin))) (spin)").expect("the program parses");
    let result = eval(program, 0, &mut interp, 1000);
    assert_eq!(result, Err(Value::error("StepLimit", Vec::new())));
    assert_eq!(eval(Value::Int(1), 0, &mut interp, 0), Err(Value::error("StepLimit", Vec::new())));
    assert_eq!(eval(Value::Int(1), 0, &mut interp, 1), Ok(Value::Int(1)));
}

#[test]
fn bracket_literals_build_lists() {
    assert_eq!(shown("[1 (+ 1 1) 3]"), "(1 2 3)");
    assert_eq!(shown("{1 (+ 1 1)}"), "{1: 2}");
    assert_eq!(shown("(get {\"k\" 5} \"k\")"), "5");
}

#[test]
fn ill_formed_special_forms_are_errors() {
    assert_eq!(shown("(if)"), "error (err InvalidArgs (if))");
    assert_eq!(shown("(if 1 2 3 4)"), "error (err InvalidArgs (if 1 2 3 4))");
    assert_eq!(shown("(quote)"), "error (err InvalidArgs (quote))");
    assert_eq!(shown("(quasiquote)"), "error (err InvalidArgs (quasiquote))");
    assert_eq!(shown("(err)"), "error (err InvalidArgs (err))");
    assert_eq!(shown("(err 5)"), "error (err InvalidArgs (err 5))");
    assert_eq!(shown("(cons 1)"), "error (err InvalidArgs (cons 1))");
    assert_eq!(shown("(let* x 1)"), "error (err InvalidArgs let* x 1)");
    assert_eq!(shown("(let* (x 1))"), "error (err InvalidArgs let* (x 1))");
    assert_eq!(shown("(def! 1 2)"), "error (err InvalidArgs def! 1 2)");
    assert_eq!(shown("(def! x)"), "error (err InvalidArgs def! x)");
    assert_eq!(shown("(try*)"), "error (err InvalidArgs (try*))");
    assert_eq!(shown("`(a (unquote))"), "error (err InvalidArgs (unquote))");
    assert_eq!(shown("(\\ x)"), "error (err InvalidLambdaError \\ x)");
}

#[test]
fn ill_formed_catch_clauses_are_errors() {
    for clause in ["5", "(catch*)", "(catch* e)", "(other e 1)", "(catch* 5 1)", "(catch* A 5 1)", "(catch* A e 1 2)"] {
        let src = format!("(try* (err A) {clause})");
        assert_eq!(shown(&src), format!("error (err InvalidCatchBlock {clause})"), "{clause}");
    }
}

#[test]
fn errors_pass_through_unchanged() {
    assert_eq!(shown("(+ 1 (err Inner 2))"), "error (err Inner 2)");
    assert_eq!(shown("(list 1 (/ 1 0) (err Never))"), "error (err DivideByZero)");
    assert_eq!(shown("(do (err First) (err Second))"), "error (err First)");
    assert_eq!(shown("(let* (a (err InLet)) a)"), "error (err InLet)");
    assert_eq!(shown("(def! x (err InDef))"), "error (err InDef)");
    assert_eq!(shown("(if (err InIf) 1 2)"), "error (err InIf)");
    assert_eq!(shown("{k (err InTable)}"), "error (err InTable)");
    assert_eq!(shown("(try* (err A 1) (catch* B e 2))"), "error (err A 1)");
    assert_eq!(shown("(try* (err A) (catch* e (err B e)))"), "error (err B (err A))");
}

#[test]
fn arguments_are_evaluated_from_left_to_right() {
    let mut interp = default_env(Vec::new());
    let result = run_in(&mut interp, "(list (print 1) (print 2) (print 3))");
    assert_eq!(result.map(|v| v.to_debug_string()), Ok("(nil nil nil)".to_string()));
    assert_eq!(interp.output, vec!["1".to_string(), "2".to_string(), "3".to_string()]);
}

#[test]
fn host_macros_receive_syntax_too() {
    assert_eq!(shown("(def! q (macro list)) (try* (q + 1 2) (catch* e e))"), "3");
    assert_eq!(
        shown("(def! quoted (macro (\\ args (list 'quote args)))) (quoted x (y) 3)"),
        "(x (y) 3)"
    );
}

#[test]
fn tables_evaluate_their_values_and_keep_their_keys() {
    assert_eq!(shown("(def! x 2) {x (+ x 1) \"s\" x}"), "{x: 3, \"s\": 2}");
    assert_eq!(shown("(keys {b 1 a 2})"), "(b a)");
    assert_eq!(shown("(values (assoc {b 1} 'a 2 'b 3))"), "(3 2)");
    assert_eq!(shown("(contains? {1 2} 1)"), "true");
    assert_eq!(shown("(get (dissoc {1 2 3 4} 1) 3)"), "4");
}

#[test]
fn nested_quasiquote_templates() {
    assert_eq!(shown("(def! x 5) `(a (b ~x) ~(list x x) {k ~x})"), "(a (b 5) (5 5) {k: (unquote x)})");
    assert_eq!(shown("`~(+ 1 2)"), "3");
}

#[test]
fn shadowing_and_frames() {
    assert_eq!(shown("(def! x 1) (let* (x 2) x)"), "2");
    assert_eq!(shown("(def! x 1) (let* (x 2) x) x"), "1");
    assert_eq!(shown("(def! x 1) (def! f (\\ () x)) (let* (x 2) (f))"), "1");
    assert_eq!(shown("(def! x 1) (let* (y 2) (def! x 3)) x"), "1");
    assert_eq!(shown("(def! true 5) true"), "true");
}
