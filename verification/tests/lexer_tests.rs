use bee_lisp::lexer::tokenize;
use bee_lisp::text::{atom_char, blank_char, space_char, special_char};

fn toks(text: &str) -> Vec<String> {
    tokenize(text)
}

fn token_pattern() -> regex::Regex {
    regex::Regex::new(
        r###"[\s,]*(~@|[\[\]{}()'`~^@]|"(?:\\(?s:.)|[^\\"])*"?|;.*|[^\s\[\]{}()'"`,;~^@]+)"###,
    )
    .unwrap()
}

fn regex_tokens(re: &regex::Regex, text: &str) -> Vec<String> {
    let mut res = vec![];
    for cap in re.captures_iter(text) {
        if cap[1].starts_with(';') {
            continue;
        }
        res.push(String::from(&cap[1]));
    }
    res
}

#[test]
fn tokenize_plus_form() {
    assert_eq!(toks("(+ 1 2)"), vec!["(", "+", "1", "2", ")"]);
}

#[test]
fn tokenize_empty_line_has_no_tokens() {
    assert_eq!(toks(""), Vec::<String>::new());
    assert_eq!(toks("   \t , ,\n"), Vec::<String>::new());
}

#[test]
fn tokenize_comment_only_line_has_no_tokens() {
    assert_eq!(toks("; nothing here"), Vec::<String>::new());
    assert_eq!(toks("  ;; (+ 1 2)"), Vec::<String>::new());
}

#[test]
fn tokenize_comment_ends_at_newline() {
    assert_eq!(toks("a ; rest (b\nc"), vec!["a", "c"]);
    assert_eq!(toks("a;b\r\nc"), vec!["a", "c"]);
}

#[test]
fn tokenize_skips_commas_and_white_space() {
    assert_eq!(toks(" ,1,,2 ,\t3\n"), vec!["1", "2", "3"]);
    assert_eq!(toks("a\u{a0}b\u{2003}c\u{3000}d\u{85}e"), vec!["a", "b", "c", "d", "e"]);
}

#[test]
fn tokenize_splice_unquote_is_one_token() {
    assert_eq!(toks("~@x"), vec!["~@", "x"]);
    assert_eq!(toks("~x"), vec!["~", "x"]);
    assert_eq!(toks("~"), vec!["~"]);
    assert_eq!(toks("~~@@"), vec!["~", "~@", "@"]);
}

#[test]
fn tokenize_special_characters_stand_alone() {
    assert_eq!(
        toks("[]{}()'`~^@"),
        vec!["[", "]", "{", "}", "(", ")", "'", "`", "~", "^", "@"]
    );
    assert_eq!(toks("'(a)"), vec!["'", "(", "a", ")"]);
}

#[test]
fn tokenize_atom_ends_at_a_special_character() {
    assert_eq!(toks("a~b"), vec!["a", "~", "b"]);
    assert_eq!(toks("a~b^c@d"), vec!["a", "~", "b", "^", "c", "@", "d"]);
    assert_eq!(toks("a~@b"), vec!["a", "~@", "b"]);
    assert_eq!(toks(":k@w"), vec![":k", "@", "w"]);
    assert_eq!(toks("x'y`z"), vec!["x", "'", "y", "`", "z"]);
    assert_eq!(toks("abc)def"), vec!["abc", ")", "def"]);
    assert_eq!(toks("abc\"def\""), vec!["abc", "\"def\""]);
}

#[test]
fn tokenize_string_literal_with_escapes() {
    assert_eq!(toks(r#""a b" c"#), vec![r#""a b""#, "c"]);
    assert_eq!(toks(r#""a\"b""#), vec![r#""a\"b""#]);
    assert_eq!(toks(r#""a\\" b"#), vec![r#""a\\""#, "b"]);
    assert_eq!(toks("\"a\nb\""), vec!["\"a\nb\""]);
    assert_eq!(toks(r#""(;,]""#), vec![r#""(;,]""#]);
}

#[test]
fn tokenize_unterminated_string_is_kept_as_it_is() {
    assert_eq!(toks(r#""abc"#), vec![r#""abc"#]);
    assert_eq!(toks(r#""abc\""#), vec![r#""abc\""#]);
    assert_eq!(toks("\""), vec!["\""]);
}

#[test]
fn tokenize_backslash_takes_the_next_character_along() {
    assert_eq!(toks("\"ab\\\ncd"), vec!["\"ab\\\ncd"]);
    assert_eq!(toks("\"ab\\\ncd\" e"), vec!["\"ab\\\ncd\"", "e"]);
    assert_eq!(toks("\"ab\\\" cd"), vec!["\"ab\\\" cd"]);
    assert_eq!(toks("\"ab\\"), vec!["\"ab", "\\"]);
}

#[test]
fn tokenize_agrees_with_the_pattern_on_samples() {
    let samples = [
        "",
        " ",
        "(+ 1 2)",
        "(+ 1 2",
        "  ( def! x , 10 ) ; comment",
        "'(1 2 3)",
        "`(a ~b ~@c)",
        "^{a 1} [1 2]",
        "@atom",
        "\"str\"",
        "\"a\\nb\"",
        "\"a\\\"b\" \"c",
        "\"unterminated",
        "\"ends with backslash\\",
        "\"backslash newline\\\nrest\"",
        "abc\"def\"ghi",
        ":kw :a:b ::",
        "a;b\nc;d\r\ne",
        ";only",
        ";;\n;;\n",
        "-12 12- -a 0012",
        "~@~@~ @~",
        "a'b c`d e,f",
        "x\u{a0}y\u{1680}z\u{2028}w\u{205f}v\u{feff}u\u{200b}t",
        "\u{29e}abc \"\u{29e}x\"",
        "{\"a\" 1, \"b\" [2 3]}",
        "\\ \\n \\\"",
        "\"\\\\\"\"\\\\\\\"\"",
        "(((((",
        ")]}",
        "\t\r\n\u{b}\u{c}x",
        "héllo wörld ✓ 日本語",
    ];
    let re = token_pattern();
    for text in samples.iter() {
        assert_eq!(toks(text), regex_tokens(&re, text), "for {:?}", text);
    }
}

#[test]
fn tokenize_agrees_with_the_pattern_on_all_short_texts() {
    let alphabet = ['a', ' ', ',', '(', ')', '~', '@', '"', '\\', ';', '\n', '\'', ':', '1'];
    let re = token_pattern();
    let n = alphabet.len();
    let mut count = 0;
    for len in 0..6usize {
        let total = n.pow(len as u32);
        for mut code in 0..total {
            let mut text = String::new();
            for _ in 0..len {
                text.push(alphabet[code % n]);
                code /= n;
            }
            assert_eq!(toks(&text), regex_tokens(&re, &text), "for {:?}", text);
            count += 1;
        }
    }
    assert_eq!(count, 1 + 14 + 196 + 2744 + 38416 + 537824);
}

#[test]
fn space_is_the_white_space_of_the_standard_library() {
    let mut spaces = 0;
    for n in 0..=0x10FFFFu32 {
        if let Some(c) = char::from_u32(n) {
            assert_eq!(space_char(c), c.is_whitespace(), "for U+{:04X}", n);
            if space_char(c) {
                spaces += 1;
            }
        }
    }
    assert_eq!(spaces, 25);
}

#[test]
fn space_is_the_white_space_of_the_pattern() {
    let re = regex::Regex::new(r"^\s$").unwrap();
    for n in 0..0x3100u32 {
        if let Some(c) = char::from_u32(n) {
            let s = c.to_string();
            assert_eq!(space_char(c), re.is_match(&s), "for U+{:04X}", n);
        }
    }
}

#[test]
fn character_classes() {
    assert!(blank_char(','));
    assert!(blank_char(' '));
    assert!(!blank_char(';'));
    for c in "[]{}()'`~^@".chars() {
        assert!(special_char(c));
    }
    assert!(!special_char('"'));
    assert!(!special_char(';'));
    for c in "[]{}()'\"`,; \n~^@".chars() {
        assert!(!atom_char(c), "{:?}", c);
    }
    for c in ":-+a0\\#.?!*/<>=_&%$|".chars() {
        assert!(atom_char(c), "{:?}", c);
    }
}
