//! The tokenizer: a line of text cut into tokens.
//!
//! Tokens are, in order of priority: the two characters `~@`; one of the
//! characters that are a token by themselves, ``[ ] { } ( ) ' ` ~ ^ @``; a
//! string literal, which runs from a quote to the next quote that no
//! backslash escapes, or as far as the literal goes where none closes it;
//! and a bare atom, the longest run of characters that are none of these
//! and neither white space, comma nor semicolon. Inside a string literal a
//! backslash takes the character after it along, whatever it is. White
//! space and commas between tokens are skipped, and so is a comment, which
//! runs from a semicolon to the end of its line.

use vstd::prelude::*;
use crate::text::{
    atom_char, blank_char, chars_of, is_atom_char, is_blank, is_special, special_char, text_of,
};

verus! {

/// The texts of the strings `v`, in order.
pub open spec fn texts(v: Seq<String>) -> Seq<Seq<char>> {
    Seq::new(v.len(), |i: int| v[i]@)
}

/// How many blank characters `s` begins with.
pub open spec fn blank_run(s: Seq<char>) -> nat
    decreases s.len(),
{
    if s.len() > 0 && is_blank(s[0]) {
        1 + blank_run(s.skip(1))
    } else {
        0
    }
}

/// How many atom characters `s` begins with.
pub open spec fn atom_run(s: Seq<char>) -> nat
    decreases s.len(),
{
    if s.len() > 0 && is_atom_char(s[0]) {
        1 + atom_run(s.skip(1))
    } else {
        0
    }
}

/// How many characters of `s` stand before its first newline.
pub open spec fn line_run(s: Seq<char>) -> nat
    decreases s.len(),
{
    if s.len() > 0 && s[0] != '\n' {
        1 + line_run(s.skip(1))
    } else {
        0
    }
}

/// How far a string literal goes whose opening quote stands just before
/// `s`: through the closing quote, where a backslash takes the character
/// after it along; or, where no quote closes the literal, up to the end of
/// `s` or to a backslash that is the last character of `s`.
pub open spec fn string_run(s: Seq<char>) -> nat
    decreases s.len(),
{
    if s.len() == 0 {
        0
    } else if s[0] == '"' {
        1
    } else if s[0] == '\\' {
        if s.len() >= 2 {
            2 + string_run(s.skip(2))
        } else {
            0
        }
    } else {
        1 + string_run(s.skip(1))
    }
}

/// The length of the token or comment that `s` begins with, where `s`
/// begins with a character that is not blank.
pub open spec fn lexeme_len(s: Seq<char>) -> nat {
    if s[0] == '~' && s.len() > 1 && s[1] == '@' {
        2
    } else if is_special(s[0]) {
        1
    } else if s[0] == '"' {
        1 + string_run(s.skip(1))
    } else if s[0] == ';' {
        1 + line_run(s.skip(1))
    } else {
        1 + atom_run(s.skip(1))
    }
}

pub proof fn lemma_blank_run_bound(s: Seq<char>)
    ensures
        blank_run(s) <= s.len(),
        blank_run(s) < s.len() ==> !is_blank(s[blank_run(s) as int]),
    decreases s.len(),
{
    if s.len() > 0 && is_blank(s[0]) {
        lemma_blank_run_bound(s.skip(1));
    }
}

pub proof fn lemma_atom_run_bound(s: Seq<char>)
    ensures
        atom_run(s) <= s.len(),
    decreases s.len(),
{
    if s.len() > 0 && is_atom_char(s[0]) {
        lemma_atom_run_bound(s.skip(1));
    }
}

pub proof fn lemma_line_run_bound(s: Seq<char>)
    ensures
        line_run(s) <= s.len(),
    decreases s.len(),
{
    if s.len() > 0 && s[0] != '\n' {
        lemma_line_run_bound(s.skip(1));
    }
}

pub proof fn lemma_string_run_bound(s: Seq<char>)
    ensures
        string_run(s) <= s.len(),
    decreases s.len(),
{
    if s.len() == 0 || s[0] == '"' {
    } else if s[0] == '\\' {
        if s.len() >= 2 {
            lemma_string_run_bound(s.skip(2));
        }
    } else {
        lemma_string_run_bound(s.skip(1));
    }
}

/// A token or comment has one character at least and ends within the text.
pub proof fn lemma_lexeme_len_bound(s: Seq<char>)
    requires
        s.len() > 0,
    ensures
        1 <= lexeme_len(s) <= s.len(),
{
    lemma_string_run_bound(s.skip(1));
    lemma_line_run_bound(s.skip(1));
    lemma_atom_run_bound(s.skip(1));
}

/// The tokens of the text `s`, in order; comments are left out.
pub open spec fn tokenize_spec(s: Seq<char>) -> Seq<Seq<char>>
    decreases s.len(),
{
    let t = s.skip(blank_run(s) as int);
    if blank_run(s) >= s.len() {
        Seq::empty()
    } else {
        let n = lexeme_len(t);
        proof {
            lemma_blank_run_bound(s);
            lemma_lexeme_len_bound(t);
        }
        let rest = tokenize_spec(t.skip(n as int));
        if t[0] == ';' {
            rest
        } else {
            seq![t.take(n as int)] + rest
        }
    }
}

/// A blank character before a text adds no token.
pub proof fn lemma_tokenize_blank(c: char, rest: Seq<char>)
    requires
        is_blank(c),
    ensures
        tokenize_spec(seq![c] + rest) == tokenize_spec(rest),
{
    let s = seq![c] + rest;
    assert(s.skip(1) =~= rest);
    lemma_blank_run_bound(rest);
    assert(s.skip(blank_run(s) as int) =~= rest.skip(blank_run(rest) as int));
}

/// A line that holds nothing but blanks and then, at most, a comment has no
/// tokens.
pub proof fn lemma_comment_line_has_no_tokens(blanks: Seq<char>, comment: Seq<char>)
    requires
        forall|i: int| 0 <= i < blanks.len() ==> is_blank(#[trigger] blanks[i]),
        comment.len() > 0 ==> comment[0] == ';',
        forall|i: int| 0 <= i < comment.len() ==> #[trigger] comment[i] != '\n',
    ensures
        tokenize_spec(blanks + comment) == Seq::<Seq<char>>::empty(),
    decreases blanks.len(),
{
    let s = blanks + comment;
    let none = Seq::<char>::empty();
    assert(tokenize_spec(none) =~= Seq::<Seq<char>>::empty());
    if blanks.len() > 0 {
        let rest = blanks.skip(1);
        assert(s =~= seq![blanks[0]] + (rest + comment));
        lemma_comment_line_has_no_tokens(rest, comment);
        lemma_tokenize_blank(blanks[0], rest + comment);
    } else if comment.len() > 0 {
        assert(s.skip(0) =~= s);
        lemma_line_run_whole(s.skip(1));
        assert(s.skip(s.len() as int) =~= none);
    }
}

/// A text without a newline is one line.
pub proof fn lemma_line_run_whole(s: Seq<char>)
    requires
        forall|i: int| 0 <= i < s.len() ==> #[trigger] s[i] != '\n',
    ensures
        line_run(s) == s.len(),
    decreases s.len(),
{
    if s.len() > 0 {
        lemma_line_run_whole(s.skip(1));
    }
}

/// The index of the first character from `i` on that is not blank.
pub fn skip_blanks(v: &Vec<char>, i: usize) -> (j: usize)
    requires
        i <= v.len(),
    ensures
        j == i + blank_run(v@.skip(i as int)),
        j <= v.len(),
{
    let mut j: usize = i;
    while j < v.len() && blank_char(v[j])
        invariant
            i <= j <= v.len(),
            blank_run(v@.skip(i as int)) == (j - i) + blank_run(v@.skip(j as int)),
        decreases v.len() - j,
    {
        assert(v@.skip(j as int).skip(1) =~= v@.skip(j + 1));
        j += 1;
    }
    j
}

/// The index of the first character from `i` on that no atom holds.
pub fn scan_atom(v: &Vec<char>, i: usize) -> (j: usize)
    requires
        i <= v.len(),
    ensures
        j == i + atom_run(v@.skip(i as int)),
        j <= v.len(),
{
    let mut j: usize = i;
    while j < v.len() && atom_char(v[j])
        invariant
            i <= j <= v.len(),
            atom_run(v@.skip(i as int)) == (j - i) + atom_run(v@.skip(j as int)),
        decreases v.len() - j,
    {
        assert(v@.skip(j as int).skip(1) =~= v@.skip(j + 1));
        j += 1;
    }
    j
}

/// The index of the first newline from `i` on, or the length of `v`.
pub fn scan_line(v: &Vec<char>, i: usize) -> (j: usize)
    requires
        i <= v.len(),
    ensures
        j == i + line_run(v@.skip(i as int)),
        j <= v.len(),
{
    let mut j: usize = i;
    while j < v.len() && v[j] != '\n'
        invariant
            i <= j <= v.len(),
            line_run(v@.skip(i as int)) == (j - i) + line_run(v@.skip(j as int)),
        decreases v.len() - j,
    {
        assert(v@.skip(j as int).skip(1) =~= v@.skip(j + 1));
        j += 1;
    }
    j
}

/// The index just after the string literal whose opening quote stands
/// just before `i`.
pub fn scan_string(v: &Vec<char>, i: usize) -> (j: usize)
    requires
        i <= v.len(),
    ensures
        j == i + string_run(v@.skip(i as int)),
        j <= v.len(),
{
    let mut j: usize = i;
    while j < v.len()
        invariant
            i <= j <= v.len(),
            string_run(v@.skip(i as int)) == (j - i) + string_run(v@.skip(j as int)),
        decreases v.len() - j,
    {
        let c = v[j];
        if c == '"' {
            return j + 1;
        } else if c == '\\' {
            if j + 1 < v.len() {
                assert(v@.skip(j as int).skip(2) =~= v@.skip(j + 2));
                j += 2;
            } else {
                return j;
            }
        } else {
            assert(v@.skip(j as int).skip(1) =~= v@.skip(j + 1));
            j += 1;
        }
    }
    j
}

/// The index just after the token or comment that begins at `i`.
pub fn lexeme_end(v: &Vec<char>, i: usize) -> (j: usize)
    requires
        i < v.len(),
    ensures
        j == i + lexeme_len(v@.skip(i as int)),
        i < j <= v.len(),
{
    let c = v[i];
    let ghost s = v@.skip(i as int);
    assert(s.skip(1) =~= v@.skip(i + 1));
    if c == '~' && i + 1 < v.len() && v[i + 1] == '@' {
        i + 2
    } else if special_char(c) {
        i + 1
    } else if c == '"' {
        scan_string(v, i + 1)
    } else if c == ';' {
        scan_line(v, i + 1)
    } else {
        scan_atom(v, i + 1)
    }
}

/// The tokens of `text`, in order.
pub fn tokenize(text: &str) -> (r: Vec<String>)
    ensures
        texts(r@) == tokenize_spec(text@),
{
    let v = chars_of(text);
    let mut res: Vec<String> = Vec::new();
    let mut i: usize = 0;
    assert(v@.skip(0) =~= v@);
    loop
        invariant
            i <= v.len(),
            v@ == text@,
            texts(res@) + tokenize_spec(v@.skip(i as int)) == tokenize_spec(v@),
        ensures
            texts(res@) == tokenize_spec(v@),
        decreases v.len() - i,
    {
        let ghost s = v@.skip(i as int);
        let start = skip_blanks(&v, i);
        if start >= v.len() {
            break ;
        }
        let end = lexeme_end(&v, start);
        let ghost t = s.skip(blank_run(s) as int);
        let ghost before = texts(res@);
        proof {
            assert(t =~= v@.skip(start as int));
            assert(t.skip(lexeme_len(t) as int) =~= v@.skip(end as int));
        }
        if v[start] != ';' {
            let token = text_of(&v, start, end);
            res.push(token);
            proof {
                assert(token@ =~= t.take(lexeme_len(t) as int));
                assert(texts(res@) + tokenize_spec(v@.skip(end as int)) =~= before
                    + tokenize_spec(s));
            }
        }
        i = end;
    }
    res
}

} // verus!
