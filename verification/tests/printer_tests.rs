use bee_lisp::eval::int_add;
use bee_lisp::printer::{escape_str, pr_seq};
use bee_lisp::reader::read_str;
use bee_lisp::types::{error, format_error, func, hash_map, list, vector, BeeErr, BeeRet, BeeVal};
use std::rc::Rc;

fn parsed(text: &str) -> BeeVal {
    match read_str(text) {
        Ok(v) => v,
        Err(e) => panic!("{} failed with {}", text, format_error(e)),
    }
}

fn string(s: &str) -> BeeVal {
    BeeVal::Str(s.to_string())
}

#[test]
fn print_reproduces_the_escaped_text() {
    let text = "\"a\\nb\"";
    assert_eq!(parsed(text).pr_str(true), text);
    assert_eq!(parsed(text).to_string(), text);
    assert_eq!(parsed(text).pr_str(false), "a\nb");
}

#[test]
fn print_literals() {
    assert_eq!(BeeVal::Nil.pr_str(true), "nil");
    assert_eq!(BeeVal::Bool(true).pr_str(true), "true");
    assert_eq!(BeeVal::Bool(false).pr_str(false), "false");
    assert_eq!(BeeVal::Int(0).pr_str(true), "0");
    assert_eq!(BeeVal::Int(-17).pr_str(true), "-17");
    assert_eq!(BeeVal::Int(i64::MIN).pr_str(true), "-9223372036854775808");
    assert_eq!(BeeVal::Sym("abc".to_string()).pr_str(true), "abc");
    assert_eq!(BeeVal::Sym("a b".to_string()).pr_str(true), "a b");
}

#[test]
fn print_string_readably_and_not() {
    assert_eq!(string("").pr_str(true), "\"\"");
    assert_eq!(string("").pr_str(false), "");
    assert_eq!(string("abc").pr_str(true), "\"abc\"");
    assert_eq!(string("abc").pr_str(false), "abc");
    assert_eq!(string("a\"b").pr_str(true), "\"a\\\"b\"");
    assert_eq!(string("a\\b").pr_str(true), "\"a\\\\b\"");
    assert_eq!(string("a\nb").pr_str(true), "\"a\\nb\"");
    assert_eq!(string("a\tb").pr_str(true), "\"a\tb\"");
    assert_eq!(string("a\"\n\\b").pr_str(false), "a\"\n\\b");
}

#[test]
fn print_keyword_with_a_colon() {
    assert_eq!(string("\u{29e}abc").pr_str(true), ":abc");
    assert_eq!(string("\u{29e}abc").pr_str(false), ":abc");
    assert_eq!(string("\u{29e}").pr_str(true), ":");
    assert_eq!(string("\u{29e}a\"b").pr_str(true), ":a\"b");
    assert_eq!(string("a\u{29e}").pr_str(true), "\"a\u{29e}\"");
}

#[test]
fn print_sequences_propagate_the_flag() {
    let items = vec![BeeVal::Int(1), string("a\"b"), BeeVal::Nil];
    assert_eq!(list(items.clone()).pr_str(true), "(1 \"a\\\"b\" nil)");
    assert_eq!(list(items.clone()).pr_str(false), "(1 a\"b nil)");
    assert_eq!(vector(items.clone()).pr_str(true), "[1 \"a\\\"b\" nil]");
    assert_eq!(vector(items).pr_str(false), "[1 a\"b nil]");
    assert_eq!(list(vec![]).pr_str(true), "()");
    assert_eq!(vector(vec![]).pr_str(true), "[]");
    let nested = list(vec![vector(vec![list(vec![string("x")])]), list(vec![])]);
    assert_eq!(nested.pr_str(true), "([(\"x\")] ())");
    assert_eq!(nested.pr_str(false), "([(x)] ())");
}

#[test]
fn print_ignores_metadata() {
    let v = BeeVal::List(Rc::new(vec![BeeVal::Int(1)]), Rc::new(BeeVal::Int(9)));
    assert_eq!(v.pr_str(true), "(1)");
}

#[test]
fn print_function_is_a_placeholder() {
    assert_eq!(func(int_add).pr_str(true), "#<builtin>");
    assert_eq!(func(int_add).pr_str(false), "#<builtin>");
    assert_eq!(list(vec![func(|_a: Vec<BeeVal>| -> BeeRet { Ok(BeeVal::Nil) })]).to_string(), "(#<builtin>)");
}

#[test]
fn pr_seq_with_other_delimiters() {
    let items = vec![BeeVal::Int(1), string("a"), BeeVal::Sym("s".to_string())];
    assert_eq!(pr_seq(&items, true, "<", ">", ", "), "<1, \"a\", s>");
    assert_eq!(pr_seq(&items, false, "", "", ""), "1as");
    assert_eq!(pr_seq(&items[..1], true, "{{", "}}", "-"), "{{1}}");
    assert_eq!(pr_seq(&[], true, "(", ")", " "), "()");
    assert_eq!(pr_seq(&items[..2], true, "(", ")", " "), "(1 \"a\")");
}

#[test]
fn escape_str_escapes_quote_newline_and_backslash() {
    assert_eq!(escape_str(""), "");
    assert_eq!(escape_str("abc"), "abc");
    assert_eq!(escape_str("\""), "\\\"");
    assert_eq!(escape_str("\n"), "\\n");
    assert_eq!(escape_str("\\"), "\\\\");
    assert_eq!(escape_str("a\"b\nc\\d\te"), "a\\\"b\\nc\\\\d\te");
    assert_eq!(escape_str("\r"), "\r");
}

#[test]
fn format_error_shows_words_or_value() {
    assert_eq!(format_error(BeeErr::ErrString("boom".to_string())), "boom");
    assert_eq!(format_error(BeeErr::ErrBeeVal(string("a\nb"))), "\"a\\nb\"");
    assert_eq!(format_error(BeeErr::ErrBeeVal(list(vec![BeeVal::Int(1), BeeVal::Nil]))), "(1 nil)");
}

#[test]
fn error_makes_a_text_error() {
    match error("some words") {
        Err(BeeErr::ErrString(s)) => assert_eq!(s, "some words"),
        _ => panic!("not a text error"),
    }
}

#[test]
fn hash_map_always_fails() {
    for args in [vec![], vec![BeeVal::Int(1), BeeVal::Int(2)]] {
        match hash_map(args) {
            Err(BeeErr::ErrString(s)) => assert_eq!(s, "Hash maps are not supported"),
            _ => panic!("not a text error"),
        }
    }
}

#[test]
fn clone_shares_elements_and_keeps_the_text() {
    let v = parsed("(a [1 \"s\" :k] nil true)");
    let w = v.clone();
    assert_eq!(v.pr_str(true), w.pr_str(true));
    match (&v, &w) {
        (BeeVal::List(a, _), BeeVal::List(b, _)) => assert!(Rc::ptr_eq(a, b)),
        _ => panic!("not lists"),
    }
    let f = func(int_add);
    let g = f.clone();
    match g.apply(vec![BeeVal::Int(2), BeeVal::Int(3)]) {
        Ok(BeeVal::Int(5)) => {}
        _ => panic!("the copy does not add"),
    }
}

#[test]
fn list_and_vector_have_no_metadata() {
    match list(vec![BeeVal::Int(1)]) {
        BeeVal::List(items, meta) => {
            assert_eq!(items.len(), 1);
            assert!(matches!(&*meta, BeeVal::Nil));
        }
        _ => panic!("not a list"),
    }
    match vector(vec![]) {
        BeeVal::Vector(items, meta) => {
            assert!(items.is_empty());
            assert!(matches!(&*meta, BeeVal::Nil));
        }
        _ => panic!("not a vector"),
    }
}
