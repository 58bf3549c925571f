use bee_lisp::number::{int_to_text, is_int_token, parse_int};

fn chars(s: &str) -> Vec<char> {
    s.chars().collect()
}

#[test]
fn int_text_of_small_and_extreme_values() {
    assert_eq!(int_to_text(0), "0");
    assert_eq!(int_to_text(7), "7");
    assert_eq!(int_to_text(10), "10");
    assert_eq!(int_to_text(-1), "-1");
    assert_eq!(int_to_text(1234567890), "1234567890");
    assert_eq!(int_to_text(i64::MAX), "9223372036854775807");
    assert_eq!(int_to_text(i64::MIN), "-9223372036854775808");
}

#[test]
fn int_text_agrees_with_the_standard_library() {
    let mut x: i64 = 1;
    for _ in 0..200 {
        assert_eq!(int_to_text(x), format!("{}", x));
        assert_eq!(int_to_text(-x), format!("{}", -x));
        x = x.wrapping_mul(6364136223846793005).wrapping_add(1442695040888963407);
        if x == i64::MIN {
            x = 1;
        }
    }
}

#[test]
fn int_tokens_are_an_optional_minus_and_digits() {
    for s in ["0", "1", "-1", "0012", "-0", "123456789012345678901234567890"] {
        assert!(is_int_token(&chars(s)), "{:?}", s);
    }
    for s in ["", "-", "+1", "1-", "--1", "1a", "a1", "1.5", "١٢", " 1", "1 "] {
        assert!(!is_int_token(&chars(s)), "{:?}", s);
    }
}

#[test]
fn parse_int_gives_the_value_or_none_out_of_range() {
    assert_eq!(parse_int(&chars("0")), Some(0));
    assert_eq!(parse_int(&chars("-0")), Some(0));
    assert_eq!(parse_int(&chars("0012")), Some(12));
    assert_eq!(parse_int(&chars("-45")), Some(-45));
    assert_eq!(parse_int(&chars("9223372036854775807")), Some(i64::MAX));
    assert_eq!(parse_int(&chars("-9223372036854775808")), Some(i64::MIN));
    assert_eq!(parse_int(&chars("9223372036854775808")), None);
    assert_eq!(parse_int(&chars("-9223372036854775809")), None);
    assert_eq!(parse_int(&chars("18446744073709551616")), None);
    assert_eq!(parse_int(&chars("99999999999999999999999999")), None);
    assert_eq!(parse_int(&chars("000000000000000000000000000001")), Some(1));
}

#[test]
fn parse_int_reads_back_what_int_text_wrote() {
    for x in [0i64, 1, -1, 9, 10, -10, 99, 100, i64::MAX, i64::MIN, i64::MAX - 1, i64::MIN + 1] {
        assert_eq!(parse_int(&chars(&int_to_text(x))), Some(x));
    }
}
