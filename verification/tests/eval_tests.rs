use bee_lisp::env::Env;
use bee_lisp::eval::{core_env, eval, int_add, int_op, print, read, register_builtin, rep};
use bee_lisp::types::{error, format_error, func, list, vector, BeeArgs, BeeErr, BeeRet, BeeVal};
use std::cell::RefCell;
use std::rc::Rc;

fn parsed(text: &str) -> BeeVal {
    match read(text) {
        Ok(v) => v,
        Err(e) => panic!("{} failed with {}", text, format_error(e)),
    }
}

fn run(text: &str, env: &Env) -> String {
    match eval(&parsed(text), env) {
        Ok(v) => v.pr_str(true),
        Err(e) => format!("error: {}", format_error(e)),
    }
}

fn text_of(r: Result<String, BeeErr>) -> String {
    match r {
        Ok(s) => s,
        Err(e) => format!("error: {}", format_error(e)),
    }
}

#[test]
fn eval_plus_form_is_three() {
    let env = core_env();
    match eval(&parsed("(+ 1 2)"), &env) {
        Ok(BeeVal::Int(3)) => {}
        Ok(v) => panic!("got {}", v.pr_str(true)),
        Err(e) => panic!("failed with {}", format_error(e)),
    }
}

#[test]
fn eval_plus_registered_as_a_closure() {
    let mut env = Env::default();
    env.insert("+".to_string(), func(|a: BeeArgs| int_op(|i, j| i.wrapping_add(j), a)));
    assert_eq!(run("(+ 1 2)", &env), "3");
    assert_eq!(run("(+ (+ 1 2) (+ 3 4))", &env), "10");
}

#[test]
fn eval_undefined_name_is_not_found() {
    let env = core_env();
    match eval(&parsed("undefined-name"), &env) {
        Err(BeeErr::ErrString(s)) => {
            assert_eq!(s, "'undefined-name' not found");
            assert!(s.contains("undefined-name"));
        }
        _ => panic!("not a text error"),
    }
    assert_eq!(run("(+ 1 x)", &env), "error: 'x' not found");
    assert_eq!(run("[1 y]", &env), "error: 'y' not found");
}

#[test]
fn eval_vector_evaluates_each_element() {
    let env = core_env();
    match eval(&parsed("[1 2 3]"), &env) {
        Ok(BeeVal::Vector(items, meta)) => {
            assert_eq!(items.len(), 3);
            assert!(matches!(&items[0], BeeVal::Int(1)));
            assert!(matches!(&items[1], BeeVal::Int(2)));
            assert!(matches!(&items[2], BeeVal::Int(3)));
            assert!(matches!(&*meta, BeeVal::Nil));
        }
        _ => panic!("not a vector"),
    }
    assert_eq!(run("[1 (+ 1 1) [(+ 1 2)] \"s\" :k nil true]", &env), "[1 2 [3] \"s\" :k nil true]");
    assert_eq!(run("[]", &env), "[]");
}

#[test]
fn eval_vector_resets_metadata() {
    let env = core_env();
    let v = BeeVal::Vector(Rc::new(vec![BeeVal::Int(1)]), Rc::new(BeeVal::Int(5)));
    match eval(&v, &env) {
        Ok(BeeVal::Vector(items, meta)) => {
            assert_eq!(items.len(), 1);
            assert!(matches!(&*meta, BeeVal::Nil));
        }
        _ => panic!("not a vector"),
    }
}

#[test]
fn eval_literals_evaluate_to_themselves() {
    let env = core_env();
    for text in ["nil", "true", "false", "0", "-5", "\"a\\nb\"", ":kw", "()"] {
        assert_eq!(run(text, &env), text);
    }
    match eval(&func(int_add), &env) {
        Ok(f) => assert!(matches!(f.apply(vec![BeeVal::Int(1), BeeVal::Int(1)]), Ok(BeeVal::Int(2)))),
        Err(_) => panic!("a function did not evaluate to itself"),
    }
}

#[test]
fn eval_empty_list_keeps_its_metadata() {
    let env = core_env();
    let v = BeeVal::List(Rc::new(vec![]), Rc::new(BeeVal::Int(5)));
    match eval(&v, &env) {
        Ok(BeeVal::List(items, meta)) => {
            assert!(items.is_empty());
            assert!(matches!(&*meta, BeeVal::Int(5)));
        }
        _ => panic!("not a list"),
    }
}

#[test]
fn eval_symbol_gives_its_binding() {
    let mut env = Env::new();
    env.insert("x".to_string(), BeeVal::Int(7));
    env.insert("l".to_string(), list(vec![BeeVal::Sym("y".to_string())]));
    assert_eq!(run("x", &env), "7");
    assert_eq!(run("l", &env), "(y)");
    assert_eq!(run("[x x]", &env), "[7 7]");
    env.insert("x".to_string(), BeeVal::Int(8));
    assert_eq!(run("x", &env), "8");
}

#[test]
fn eval_call_of_what_is_no_function() {
    let mut env = core_env();
    env.insert("x".to_string(), BeeVal::Int(7));
    assert_eq!(run("(1 2 3)", &env), "error: Attempt to call non function");
    assert_eq!(run("(x)", &env), "error: Attempt to call non function");
    assert_eq!(run("(\"f\" 1)", &env), "error: Attempt to call non function");
    assert_eq!(run("([+] 1)", &env), "error: Attempt to call non function");
    assert_eq!(run("(() 1)", &env), "error: Attempt to call non function");
    assert_eq!(run("(quote a)", &env), "error: 'quote' not found");
    assert_eq!(run("'a", &env), "error: 'quote' not found");
}

#[test]
fn eval_arguments_come_before_the_call() {
    let env = core_env();
    assert_eq!(run("(1 y)", &env), "error: 'y' not found");
    assert_eq!(run("(z y)", &env), "error: 'z' not found");
    assert_eq!(run("(+ a b)", &env), "error: 'a' not found");
    assert_eq!(run("(+ 1 (2 3))", &env), "error: Attempt to call non function");
}

#[test]
fn eval_is_left_to_right() {
    let log: Rc<RefCell<Vec<i64>>> = Rc::new(RefCell::new(vec![]));
    let seen = log.clone();
    let mut env = core_env();
    register_builtin(&mut env, "note", move |a: BeeArgs| -> BeeRet {
        match &a[0] {
            BeeVal::Int(i) => {
                seen.borrow_mut().push(*i);
                Ok(BeeVal::Int(*i))
            }
            _ => error("note wants an integer"),
        }
    });
    assert_eq!(run("[(note 1) (note 2) (note 3)]", &env), "[1 2 3]");
    assert_eq!(*log.borrow(), vec![1, 2, 3]);
    log.borrow_mut().clear();
    assert_eq!(run("(+ (note 4) (note 5))", &env), "9");
    assert_eq!(*log.borrow(), vec![4, 5]);
    log.borrow_mut().clear();
    assert_eq!(run("[(note 6) missing (note 7)]", &env), "error: 'missing' not found");
    assert_eq!(*log.borrow(), vec![6]);
    log.borrow_mut().clear();
    assert_eq!(run("((note 8) (note 9))", &env), "error: Attempt to call non function");
    assert_eq!(*log.borrow(), vec![8, 9]);
}

#[test]
fn eval_hands_the_error_of_a_function_on() {
    let mut env = core_env();
    register_builtin(&mut env, "fail", |_a: BeeArgs| -> BeeRet {
        Err(BeeErr::ErrBeeVal(BeeVal::Str("thrown".to_string())))
    });
    assert_eq!(run("(fail)", &env), "error: \"thrown\"");
    assert_eq!(run("[1 (fail) x]", &env), "error: \"thrown\"");
    assert_eq!(run("(+ 1 (fail))", &env), "error: \"thrown\"");
    assert_eq!(run("(+ 1 \"a\")", &env), "error: invalid int_op args");
}

#[test]
fn eval_does_not_change_its_inputs() {
    let env = core_env();
    let ast = parsed("(+ 1 [2 x])");
    let before = ast.pr_str(true);
    let _ = eval(&ast, &env);
    assert_eq!(ast.pr_str(true), before);
    assert_eq!(run("(+ 1 2)", &env), "3");
}

#[test]
fn apply_calls_a_function_and_rejects_the_rest() {
    match func(int_add).apply(vec![BeeVal::Int(20), BeeVal::Int(22)]) {
        Ok(BeeVal::Int(42)) => {}
        _ => panic!("did not add"),
    }
    for v in [BeeVal::Nil, BeeVal::Int(1), BeeVal::Sym("+".to_string()), list(vec![]), vector(vec![])] {
        match v.apply(vec![]) {
            Err(BeeErr::ErrString(s)) => assert_eq!(s, "Attempt to call non function"),
            _ => panic!("applied"),
        }
    }
}

#[test]
fn int_op_applies_to_two_integers() {
    assert!(matches!(int_op(|i, j| i - j, vec![BeeVal::Int(5), BeeVal::Int(7)]), Ok(BeeVal::Int(-2))));
    assert!(matches!(
        int_op(|i, j| i * j, vec![BeeVal::Int(5), BeeVal::Int(7), BeeVal::Nil]),
        Ok(BeeVal::Int(35))
    ));
}

#[test]
fn int_op_rejects_other_arguments() {
    let bad: Vec<Vec<BeeVal>> = vec![
        vec![],
        vec![BeeVal::Int(1)],
        vec![BeeVal::Int(1), BeeVal::Nil],
        vec![BeeVal::Str("1".to_string()), BeeVal::Int(1)],
        vec![BeeVal::Bool(true), BeeVal::Bool(false)],
    ];
    for args in bad {
        match int_op(|i, j| i.wrapping_add(j), args) {
            Err(BeeErr::ErrString(s)) => assert_eq!(s, "invalid int_op args"),
            _ => panic!("accepted"),
        }
    }
}

#[test]
fn int_add_wraps_around() {
    assert!(matches!(int_add(vec![BeeVal::Int(1), BeeVal::Int(2)]), Ok(BeeVal::Int(3))));
    assert!(matches!(int_add(vec![BeeVal::Int(-1), BeeVal::Int(1)]), Ok(BeeVal::Int(0))));
    assert!(matches!(int_add(vec![BeeVal::Int(i64::MAX), BeeVal::Int(1)]), Ok(BeeVal::Int(i64::MIN))));
    assert!(matches!(int_add(vec![BeeVal::Int(i64::MIN), BeeVal::Int(-1)]), Ok(BeeVal::Int(i64::MAX))));
    assert!(matches!(int_add(vec![BeeVal::Int(i64::MIN), BeeVal::Int(i64::MIN)]), Ok(BeeVal::Int(0))));
    assert!(matches!(int_add(vec![BeeVal::Int(1)]), Err(BeeErr::ErrString(_))));
}

#[test]
fn env_insert_overwrites_and_get_finds() {
    let mut env = Env::new();
    assert!(env.get("a").is_none());
    env.insert("a".to_string(), BeeVal::Int(1));
    assert!(matches!(env.get("a"), Some(BeeVal::Int(1))));
    assert!(env.get("b").is_none());
    assert!(env.get("").is_none());
    env.insert("a".to_string(), BeeVal::Int(2));
    env.insert("b".to_string(), BeeVal::Nil);
    assert!(matches!(env.get("a"), Some(BeeVal::Int(2))));
    assert!(matches!(env.get("b"), Some(BeeVal::Nil)));
    assert!(Env::default().get("+").is_none());
}

#[test]
fn core_env_binds_plus_only() {
    let env = core_env();
    assert!(matches!(env.get("+"), Some(BeeVal::Func(_, _))));
    assert!(env.get("-").is_none());
}

#[test]
fn register_builtin_binds_a_function() {
    let mut env = Env::new();
    register_builtin(&mut env, "one", |_a: BeeArgs| -> BeeRet { Ok(BeeVal::Int(1)) });
    assert_eq!(run("(one)", &env), "1");
    assert_eq!(run("one", &env), "#<builtin>");
    register_builtin(&mut env, "one", |_a: BeeArgs| -> BeeRet { Ok(BeeVal::Int(2)) });
    assert_eq!(run("(one 5 6)", &env), "2");
}

#[test]
fn rep_reads_evaluates_and_prints() {
    let env = core_env();
    assert_eq!(text_of(rep("(+ 1 2)", &env)), "3");
    assert_eq!(text_of(rep("[1 \"a\\\"b\" :k]", &env)), "[1 \"a\\\"b\" :k]");
    assert_eq!(text_of(rep("(+ 1 2", &env)), "error: Expected ')', got EOF");
    assert_eq!(text_of(rep("nope", &env)), "error: 'nope' not found");
    assert_eq!(text_of(rep("+", &env)), "#<builtin>");
    assert_eq!(text_of(rep("  7 ; seven", &env)), "7");
}

#[test]
fn print_is_the_readable_text() {
    assert_eq!(print(&BeeVal::Str("a\nb".to_string())), "\"a\\nb\"");
    assert_eq!(print(&parsed("(1 [2] \"x\")")), "(1 [2] \"x\")");
}

#[test]
fn round_trip_on_samples() {
    let samples = [
        "nil", "true", "false", "0", "-1", "42", "9223372036854775807", "-9223372036854775808",
        "abc", "+", "a-b?", "~", "~@", "@", "^", "`", ":kw", ":", "\"\"", "\"abc\"", "\"a\\nb\"",
        "\"a\\\"b\\\\c\"", "\"(not a list)\"", "\"; no comment\"", "()", "[]", "(1 2 3)", "[1 [2 (3)]]",
        "(a \"b c\" :d [nil true] (quote e))", "'x", "(~ @ ~@ ^ `)", "\"tab\there\"", "\"\u{29f}\"",
    ];
    for text in samples.iter() {
        let first = parsed(text);
        let printed = print(&first);
        let second = parsed(&printed);
        assert!(same(&first, &second), "{} came back as {}", text, print(&second));
        assert_eq!(print(&second), printed, "for {}", text);
    }
}

#[test]
fn round_trip_keeps_literal_newlines() {
    let first = parsed("\"a\nb\"");
    assert_eq!(print(&first), "\"a\\nb\"");
    assert!(same(&first, &parsed(&print(&first))));
}

#[test]
fn printing_twice_gives_the_same_text() {
    for text in ["(+  1,2 )", "[ :a \"b\\n\" ]", "'( a )", "-007", "( ( ) [ ] )"] {
        let once = print(&parsed(text));
        let twice = print(&parsed(&once));
        assert_eq!(once, twice, "for {}", text);
    }
    assert_eq!(print(&parsed("(+  1,2 )")), "(+ 1 2)");
    assert_eq!(print(&parsed("-007")), "-7");
}

fn same(a: &BeeVal, b: &BeeVal) -> bool {
    match (a, b) {
        (BeeVal::Nil, BeeVal::Nil) => true,
        (BeeVal::Bool(x), BeeVal::Bool(y)) => x == y,
        (BeeVal::Int(x), BeeVal::Int(y)) => x == y,
        (BeeVal::Str(x), BeeVal::Str(y)) => x == y,
        (BeeVal::Sym(x), BeeVal::Sym(y)) => x == y,
        (BeeVal::List(x, m), BeeVal::List(y, n)) | (BeeVal::Vector(x, m), BeeVal::Vector(y, n)) => {
            x.len() == y.len() && x.iter().zip(y.iter()).all(|(p, q)| same(p, q)) && same(m, n)
        }
        _ => false,
    }
}

#[test]
fn string_literal_that_begins_with_the_keyword_mark_prints_as_a_keyword() {
    let first = parsed("\"\u{29e}a b\"");
    assert!(matches!(&first, BeeVal::Str(s) if s == "\u{29e}a b"));
    assert_eq!(print(&first), ":a b");
    let second = parsed(&print(&first));
    assert!(matches!(&second, BeeVal::Str(s) if s == "\u{29e}a"));
    let kept = parsed("\"\u{29e}ab\"");
    assert_eq!(print(&kept), ":ab");
    assert!(same(&kept, &parsed(&print(&kept))));
}

#[test]
fn plus_of_core_env_wraps_around() {
    let env = core_env();
    assert_eq!(run("(+ 9223372036854775807 1)", &env), "-9223372036854775808");
    assert_eq!(run("(+ 1)", &env), "error: invalid int_op args");
    assert_eq!(run("(+)", &env), "error: invalid int_op args");
    assert_eq!(run("(+ 1 2 3)", &env), "3");
    assert_eq!(run("(+ nil 2)", &env), "error: invalid int_op args");
}
