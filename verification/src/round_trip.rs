//! What is printed reads back: the reader gives back every value that it
//! can produce from that value's readable text.

use vstd::prelude::*;
use crate::lexer::{
    atom_run, blank_run, lemma_tokenize_blank, lexeme_len, string_run, tokenize_spec,
};
use crate::number::{int_text, is_int_text, lemma_int_text_round_trip, lemma_nat_text_value};
use crate::printer::{escape_char, escape_text, is_keyword, join_texts, pr_all, pr_str_spec};
use crate::reader::{
    close_seq, is_string_literal, read_atom_spec, read_form_spec, read_seq_spec, read_str_spec,
    string_closed, unescape,
};
use crate::text::{is_atom_char, is_blank, is_digit, is_special};
use crate::types::{list_of, vector_of, Val, KEYWORD_MARK};

verus! {

pub open spec fn all_atom_chars(s: Seq<char>) -> bool {
    forall|i: int| 0 <= i < s.len() ==> is_atom_char(#[trigger] s[i])
}

/// Whether `s` is a bare atom: one atom character or more.
pub open spec fn is_bare_atom(s: Seq<char>) -> bool {
    s.len() > 0 && all_atom_chars(s)
}

/// Whether `s` is one of the tokens made of special characters that read
/// as a symbol.
pub open spec fn is_mark_symbol(s: Seq<char>) -> bool {
    ||| s == seq!['~', '@']
    ||| s == seq!['~']
    ||| s == seq!['`']
    ||| s == seq!['^']
    ||| s == seq!['@']
}

/// Whether `s` is the text of a symbol that the reader produces: a token
/// that is no other atom.
pub open spec fn is_symbol_text(s: Seq<char>) -> bool {
    &&& is_bare_atom(s) || is_mark_symbol(s)
    &&& s != "nil"@
    &&& s != "true"@
    &&& s != "false"@
    &&& !is_int_text(s)
    &&& s[0] != ':'
}

/// Whether the text of `v` reads back as `v`, metadata aside: every symbol
/// in it is the text of a symbol, every keyword is a keyword's text, and it
/// holds no function.
pub open spec fn reads_back(v: Val) -> bool
    decreases v,
{
    match v {
        Val::Nil => true,
        Val::Bool(_) => true,
        Val::Int(_) => true,
        Val::Str(s) => is_keyword(s) ==> all_atom_chars(s.skip(1)),
        Val::Sym(s) => is_symbol_text(s),
        Val::List(items, _) => forall|i: int|
            0 <= i < items.len() ==> reads_back(#[trigger] items[i]),
        Val::Vector(items, _) => forall|i: int|
            0 <= i < items.len() ==> reads_back(#[trigger] items[i]),
        Val::Func(_, _) => false,
    }
}

/// Whether `v` holds no metadata.
pub open spec fn plain(v: Val) -> bool
    decreases v,
{
    match v {
        Val::List(items, m) => *m == Val::Nil && forall|i: int|
            0 <= i < items.len() ==> plain(#[trigger] items[i]),
        Val::Vector(items, m) => *m == Val::Nil && forall|i: int|
            0 <= i < items.len() ==> plain(#[trigger] items[i]),
        Val::Func(_, m) => *m == Val::Nil,
        _ => true,
    }
}

/// `v` without the metadata of its lists and vectors.
pub open spec fn bare(v: Val) -> Val
    decreases v,
{
    match v {
        Val::List(items, _) => list_of(
            Seq::new(
                items.len(),
                |i: int|
                    if 0 <= i < items.len() {
                        bare(items[i])
                    } else {
                        Val::Nil
                    },
            ),
        ),
        Val::Vector(items, _) => vector_of(
            Seq::new(
                items.len(),
                |i: int|
                    if 0 <= i < items.len() {
                        bare(items[i])
                    } else {
                        Val::Nil
                    },
            ),
        ),
        _ => v,
    }
}

/// Whether a token that ends just before `rest` ends there: `rest` begins
/// with nothing that an atom or a `~` could go on with.
pub open spec fn ends_token(rest: Seq<char>) -> bool {
    rest.len() == 0 || (!is_atom_char(rest[0]) && rest[0] != '@')
}

/// A text that begins with the token `a` has `a` as its first token.
pub proof fn lemma_tokenize_lexeme(a: Seq<char>, rest: Seq<char>)
    requires
        a.len() > 0,
        !is_blank(a[0]),
        a[0] != ';',
        lexeme_len(a + rest) == a.len(),
    ensures
        tokenize_spec(a + rest) == seq![a] + tokenize_spec(rest),
{
    let s = a + rest;
    assert(s.skip(0) =~= s);
    assert(s.take(a.len() as int) =~= a);
    assert(s.skip(a.len() as int) =~= rest);
}

/// Atom characters before the end of a token are one run.
pub proof fn lemma_atom_run(x: Seq<char>, rest: Seq<char>)
    requires
        all_atom_chars(x),
        ends_token(rest),
    ensures
        atom_run(x + rest) == x.len(),
    decreases x.len(),
{
    if x.len() > 0 {
        let y = x.skip(1);
        assert((x + rest).skip(1) =~= y + rest);
        lemma_atom_run(y, rest);
    }
}

/// A bare atom before the end of a token is one token.
pub proof fn lemma_tokenize_bare_atom(a: Seq<char>, rest: Seq<char>)
    requires
        is_bare_atom(a),
        ends_token(rest),
    ensures
        tokenize_spec(a + rest) == seq![a] + tokenize_spec(rest),
{
    let s = a + rest;
    let y = a.skip(1);
    assert(s.skip(1) =~= y + rest);
    lemma_atom_run(y, rest);
    lemma_tokenize_lexeme(a, rest);
}

/// A token made of special characters that reads as a symbol is one token
/// before the end of a token.
pub proof fn lemma_tokenize_mark_symbol(a: Seq<char>, rest: Seq<char>)
    requires
        is_mark_symbol(a),
        ends_token(rest),
    ensures
        tokenize_spec(a + rest) == seq![a] + tokenize_spec(rest),
{
    lemma_tokenize_lexeme(a, rest);
}

/// An escaped text and the quote after it are what a string literal runs
/// through, and that quote closes it.
pub proof fn lemma_string_run_escaped(s: Seq<char>, rest: Seq<char>)
    ensures
        string_run(escape_text(s) + seq!['"'] + rest) == escape_text(s).len() + 1,
        string_closed(escape_text(s) + seq!['"'] + rest),
        unescape(escape_text(s)) == s,
    decreases s.len(),
{
    let q = seq!['"'];
    if s.len() > 0 {
        let tail = escape_text(s.skip(1));
        let e = escape_char(s[0]);
        lemma_string_run_escaped(s.skip(1), rest);
        let whole = escape_text(s) + q + rest;
        if e.len() == 2 {
            assert(whole.skip(2) =~= tail + q + rest);
            assert(escape_text(s).skip(2) =~= tail);
        } else {
            assert(whole.skip(1) =~= tail + q + rest);
            assert(escape_text(s).skip(1) =~= tail);
        }
    }
}

/// A string literal is one token, whatever follows it.
pub proof fn lemma_tokenize_string(s: Seq<char>, rest: Seq<char>)
    ensures
        tokenize_spec(seq!['"'] + escape_text(s) + seq!['"'] + rest) == seq![
            seq!['"'] + escape_text(s) + seq!['"'],
        ] + tokenize_spec(rest),
{
    let a = seq!['"'] + escape_text(s) + seq!['"'];
    let whole = a + rest;
    assert(whole.skip(1) =~= escape_text(s) + seq!['"'] + rest);
    lemma_string_run_escaped(s, rest);
    lemma_tokenize_lexeme(a, rest);
}

/// Whether `v` is printed as one token.
pub open spec fn is_atom(v: Val) -> bool {
    v is Nil || v is Bool || v is Int || v is Str || v is Sym
}

/// Whether `t` is a token that opens or closes a sequence or quotes a form.
pub open spec fn is_form_token(t: Seq<char>) -> bool {
    ||| t == "'"@
    ||| t == "("@
    ||| t == ")"@
    ||| t == "["@
    ||| t == "]"@
    ||| t == "{"@
    ||| t == "}"@
}

/// The characters of the tokens that the grammar names.
pub proof fn lemma_token_texts()
    ensures
        "'"@ == seq!['\''],
        "("@ == seq!['('],
        ")"@ == seq![')'],
        "["@ == seq!['['],
        "]"@ == seq![']'],
        "{"@ == seq!['{'],
        "}"@ == seq!['}'],
        " "@ == seq![' '],
        "nil"@ == seq!['n', 'i', 'l'],
        "true"@ == seq!['t', 'r', 'u', 'e'],
        "false"@ == seq!['f', 'a', 'l', 's', 'e'],
        "'"@[0] == '\'',
        "("@[0] == '(',
        ")"@[0] == ')',
        "["@[0] == '[',
        "]"@[0] == ']',
        "{"@[0] == '{',
        "}"@[0] == '}',
{
    reveal_strlit("'");
    reveal_strlit("(");
    reveal_strlit(")");
    reveal_strlit("[");
    reveal_strlit("]");
    reveal_strlit("{");
    reveal_strlit("}");
    reveal_strlit(" ");
    reveal_strlit("nil");
    reveal_strlit("true");
    reveal_strlit("false");
}

/// The decimal text of an integer is a bare atom that begins with a digit
/// or a minus sign.
pub proof fn lemma_int_text_is_bare_atom(i: int)
    ensures
        is_bare_atom(int_text(i)),
        is_digit(int_text(i)[0]) || int_text(i)[0] == '-',
{
    if i < 0 {
        lemma_nat_text_value((-i) as nat);
    } else {
        lemma_nat_text_value(i as nat);
    }
}

/// The text of an atom that reads back is one token that reads as the
/// atom and that is none of the tokens of the grammar of forms.
pub proof fn lemma_atom_token(v: Val, rest: Seq<char>)
    requires
        is_atom(v),
        reads_back(v),
        ends_token(rest),
    ensures
        tokenize_spec(pr_str_spec(v, true) + rest) == seq![pr_str_spec(v, true)] + tokenize_spec(
            rest,
        ),
        read_atom_spec(pr_str_spec(v, true)) == Ok::<Val, crate::types::ErrVal>(v),
        !is_form_token(pr_str_spec(v, true)),
{
    let t = pr_str_spec(v, true);
    lemma_token_texts();
    match v {
        Val::Nil => {
            lemma_tokenize_bare_atom(t, rest);
        },
        Val::Bool(b) => {
            lemma_tokenize_bare_atom(t, rest);
        },
        Val::Int(i) => {
            lemma_int_text_is_bare_atom(i as int);
            lemma_int_text_round_trip(i as int);
            lemma_tokenize_bare_atom(t, rest);
        },
        Val::Str(s) => {
            if is_keyword(s) {
                let name = s.skip(1);
                lemma_tokenize_bare_atom(t, rest);
                assert(t.skip(1) =~= name);
                assert(seq![KEYWORD_MARK] + name =~= s);
            } else {
                let q = seq!['"'];
                lemma_tokenize_string(s, rest);
                lemma_string_run_escaped(s, Seq::empty());
                assert(t.skip(1) =~= escape_text(s) + q + Seq::<char>::empty());
                assert(t.subrange(1, t.len() - 1) =~= escape_text(s));
            }
        },
        Val::Sym(s) => {
            if is_bare_atom(s) {
                lemma_tokenize_bare_atom(s, rest);
            } else {
                lemma_tokenize_mark_symbol(s, rest);
            }
        },
        _ => {},
    }
}

/// The values of `items` without metadata.
pub open spec fn bare_all(items: Seq<Val>) -> Seq<Val> {
    Seq::new(items.len(), |i: int| bare(items[i]))
}

/// The tokens of the readable text of `v`.
pub open spec fn tokens_of(v: Val) -> Seq<Seq<char>>
    decreases v,
{
    match v {
        Val::List(items, _) => seq!["("@] + tokens_of_all(items) + seq![")"@],
        Val::Vector(items, _) => seq!["["@] + tokens_of_all(items) + seq!["]"@],
        _ => seq![pr_str_spec(v, true)],
    }
}

/// The tokens of the readable texts of `items`, one value after the other.
pub open spec fn tokens_of_all(items: Seq<Val>) -> Seq<Seq<char>>
    decreases items,
{
    if items.len() == 0 {
        Seq::empty()
    } else {
        tokens_of(items[0]) + tokens_of_all(items.skip(1))
    }
}

pub open spec fn all_read_back(items: Seq<Val>) -> bool {
    forall|i: int| 0 <= i < items.len() ==> reads_back(#[trigger] items[i])
}

/// The readable text of a list or vector: its elements between the opener
/// and the closer, with a space between each two neighbours.
pub proof fn lemma_print_seq(v: Val)
    ensures
        v matches Val::List(items, _) ==> pr_str_spec(v, true) == seq!['('] + join_texts(
            pr_all(items, true),
            seq![' '],
        ) + seq![')'],
        v matches Val::Vector(items, _) ==> pr_str_spec(v, true) == seq!['['] + join_texts(
            pr_all(items, true),
            seq![' '],
        ) + seq![']'],
{
    lemma_token_texts();
}

/// The texts of the values after the first are the texts after the first.
pub proof fn lemma_pr_all_skip(items: Seq<Val>)
    requires
        items.len() > 0,
    ensures
        pr_all(items, true).skip(1) == pr_all(items.skip(1), true),
        pr_all(items, true)[0] == pr_str_spec(items[0], true),
        pr_all(items, true).len() == items.len(),
{
}

/// The tokens of the readable text of a value that reads back, before the
/// end of a token.
pub proof fn lemma_tokenize_value(v: Val, rest: Seq<char>)
    requires
        reads_back(v),
        ends_token(rest),
    ensures
        tokenize_spec(pr_str_spec(v, true) + rest) == tokens_of(v) + tokenize_spec(rest),
    decreases v,
{
    lemma_token_texts();
    match v {
        Val::List(items, _) => {
            lemma_print_seq(v);
            let body = join_texts(pr_all(items, true), seq![' ']);
            let after = body + seq![')'] + rest;
            assert(pr_str_spec(v, true) + rest =~= seq!['('] + after);
            lemma_tokenize_lexeme(seq!['('], after);
            lemma_tokenize_items(items, ')', rest);
            assert(tokens_of(v) + tokenize_spec(rest) =~= seq![seq!['(']] + (tokens_of_all(items)
                + seq![seq![')']] + tokenize_spec(rest)));
        },
        Val::Vector(items, _) => {
            lemma_print_seq(v);
            let body = join_texts(pr_all(items, true), seq![' ']);
            let after = body + seq![']'] + rest;
            assert(pr_str_spec(v, true) + rest =~= seq!['['] + after);
            lemma_tokenize_lexeme(seq!['['], after);
            lemma_tokenize_items(items, ']', rest);
            assert(tokens_of(v) + tokenize_spec(rest) =~= seq![seq!['[']] + (tokens_of_all(items)
                + seq![seq![']']] + tokenize_spec(rest)));
        },
        _ => {
            lemma_atom_token(v, rest);
        },
    }
}

/// The tokens of the elements of a sequence up to its closer.
pub proof fn lemma_tokenize_items(items: Seq<Val>, close: char, rest: Seq<char>)
    requires
        all_read_back(items),
        close == ')' || close == ']',
    ensures
        tokenize_spec(join_texts(pr_all(items, true), seq![' ']) + seq![close] + rest)
            == tokens_of_all(items) + seq![seq![close]] + tokenize_spec(rest),
    decreases items,
{
    let closer = seq![close];
    let parts = pr_all(items, true);
    let sep = seq![' '];
    lemma_tokenize_lexeme(closer, rest);
    if items.len() == 0 {
        assert(tokens_of_all(items) + seq![closer] + tokenize_spec(rest) =~= seq![closer]
            + tokenize_spec(rest));
    } else {
        lemma_pr_all_skip(items);
        let first = parts[0];
        let others = items.skip(1);
        if items.len() == 1 {
            let after = closer + rest;
            assert(join_texts(parts, sep) + closer + rest =~= first + after);
            lemma_tokenize_value(items[0], after);
            assert(tokens_of_all(others) =~= Seq::<Seq<char>>::empty());
            assert(tokens_of_all(items) + seq![closer] + tokenize_spec(rest) =~= tokens_of(
                items[0],
            ) + (seq![closer] + tokenize_spec(rest)));
        } else {
            let tail = join_texts(pr_all(others, true), sep) + closer + rest;
            let after = sep + tail;
            assert(join_texts(parts, sep) + closer + rest =~= first + after);
            lemma_tokenize_value(items[0], after);
            lemma_tokenize_blank(' ', tail);
            lemma_tokenize_items(others, close, rest);
            assert(tokens_of_all(items) + seq![closer] + tokenize_spec(rest) =~= tokens_of(
                items[0],
            ) + (tokens_of_all(others) + seq![closer] + tokenize_spec(rest)));
        }
    }
}

/// The readable text of a value that reads back has one token at least,
/// and its first token closes no sequence.
pub proof fn lemma_first_token(v: Val)
    requires
        reads_back(v),
    ensures
        tokens_of(v).len() >= 1,
        tokens_of(v)[0] != ")"@,
        tokens_of(v)[0] != "]"@,
{
    lemma_token_texts();
    match v {
        Val::List(items, _) => {
        },
        Val::Vector(items, _) => {
        },
        _ => {
            lemma_atom_token(v, Seq::empty());
        },
    }
}

/// Reading the tokens of a value that reads back gives the value, metadata
/// aside, and leaves the position after its last token.
pub proof fn lemma_read_value(tokens: Seq<Seq<char>>, pos: nat, v: Val)
    requires
        reads_back(v),
        pos + tokens_of(v).len() <= tokens.len(),
        tokens.subrange(pos as int, pos as int + tokens_of(v).len() as int) == tokens_of(v),
    ensures
        read_form_spec(tokens, pos) == (
            Ok::<Val, crate::types::ErrVal>(bare(v)),
            pos + tokens_of(v).len(),
        ),
    decreases v,
{
    lemma_token_texts();
    let p = pos as int;
    let n = tokens_of(v).len() as int;
    let mine = tokens.subrange(p, p + n);
    match v {
        Val::List(items, _) => {
            let m = tokens_of_all(items).len() as int;
            assert(mine[0] == tokens[p]);
            assert(mine[m + 1] == tokens[p + m + 1]);
            assert(tokens.subrange(p + 1, p + 1 + m) =~= tokens_of_all(items)) by {
                assert forall|i: int| 0 <= i < m implies tokens[p + 1 + i] == tokens_of_all(
                    items,
                )[i] by {
                    assert(mine[i + 1] == tokens[p + 1 + i]);
                }
            }
            lemma_read_items(tokens, pos + 1, items, ")"@, Seq::empty());
            assert(bare(v)->List_0 =~= bare_all(items));
            assert(read_form_spec(tokens, pos) == read_seq_spec(
                tokens,
                pos + 1,
                ")"@,
                Seq::empty(),
            ));
        },
        Val::Vector(items, _) => {
            let m = tokens_of_all(items).len() as int;
            assert(mine[0] == tokens[p]);
            assert(mine[m + 1] == tokens[p + m + 1]);
            assert(tokens.subrange(p + 1, p + 1 + m) =~= tokens_of_all(items)) by {
                assert forall|i: int| 0 <= i < m implies tokens[p + 1 + i] == tokens_of_all(
                    items,
                )[i] by {
                    assert(mine[i + 1] == tokens[p + 1 + i]);
                }
            }
            lemma_read_items(tokens, pos + 1, items, "]"@, Seq::empty());
            assert(bare(v)->Vector_0 =~= bare_all(items));
            assert(read_form_spec(tokens, pos) == read_seq_spec(
                tokens,
                pos + 1,
                "]"@,
                Seq::empty(),
            ));
        },
        _ => {
            lemma_atom_token(v, Seq::empty());
            assert(mine[0] == tokens[p]);
        },
    }
}

/// Reading the tokens of the elements of a sequence and its closer gives
/// the sequence of what was read before and of these elements.
pub proof fn lemma_read_items(
    tokens: Seq<Seq<char>>,
    pos: nat,
    items: Seq<Val>,
    end: Seq<char>,
    before: Seq<Val>,
)
    requires
        all_read_back(items),
        end == ")"@ || end == "]"@,
        pos + tokens_of_all(items).len() < tokens.len(),
        tokens.subrange(pos as int, pos as int + tokens_of_all(items).len() as int) == tokens_of_all(
            items,
        ),
        tokens[pos as int + tokens_of_all(items).len() as int] == end,
    ensures
        read_seq_spec(tokens, pos, end, before) == (
            close_seq(end, before + bare_all(items)),
            pos + tokens_of_all(items).len() + 1,
        ),
    decreases items,
{
    let p = pos as int;
    let n = tokens_of_all(items).len() as int;
    let mine = tokens.subrange(p, p + n);
    if items.len() > 0 {
        let first = items[0];
        let others = items.skip(1);
        let k = tokens_of(first).len() as int;
        lemma_first_token(first);
        assert(tokens.subrange(p, p + k) =~= tokens_of(first)) by {
            assert forall|i: int| 0 <= i < k implies tokens[p + i] == tokens_of(first)[i] by {
                assert(mine[i] == tokens[p + i]);
            }
        }
        lemma_read_value(tokens, pos, first);
        assert(tokens.subrange(p + k, p + n) =~= tokens_of_all(others)) by {
            assert forall|i: int| 0 <= i < n - k implies tokens[p + k + i] == tokens_of_all(
                others,
            )[i] by {
                assert(mine[k + i] == tokens[p + k + i]);
            }
        }
        lemma_read_items(tokens, (p + k) as nat, others, end, before.push(bare(first)));
        assert(before.push(bare(first)) + bare_all(others) =~= before + bare_all(items));
    }
}

/// Reading the readable text of a value that reads back gives the value,
/// metadata aside.
pub proof fn lemma_read_printed(v: Val)
    requires
        reads_back(v),
    ensures
        read_str_spec(pr_str_spec(v, true)) == Ok::<Val, crate::types::ErrVal>(bare(v)),
{
    lemma_tokenize_value(v, Seq::empty());
    let tokens = tokens_of(v);
    assert(tokens.subrange(0, tokens.len() as int) =~= tokens);
    lemma_read_value(tokens, 0, v);
}

/// A value without metadata is what it is with its metadata left out.
pub proof fn lemma_bare_plain(v: Val)
    requires
        plain(v),
        !(v is Func),
    ensures
        bare(v) == v,
    decreases v,
{
    match v {
        Val::List(items, m) => {
            assert forall|i: int| 0 <= i < items.len() implies bare(items[i]) == items[i] by {
                if !(items[i] is Func) {
                    lemma_bare_plain(items[i]);
                }
            }
            assert(bare(v)->List_0 =~= items);
        },
        Val::Vector(items, m) => {
            assert forall|i: int| 0 <= i < items.len() implies bare(items[i]) == items[i] by {
                if !(items[i] is Func) {
                    lemma_bare_plain(items[i]);
                }
            }
            assert(bare(v)->Vector_0 =~= items);
        },
        _ => {},
    }
}

/// Metadata does not show in the text of a value.
pub proof fn lemma_print_bare(v: Val, readably: bool)
    ensures
        pr_str_spec(bare(v), readably) == pr_str_spec(v, readably),
    decreases v,
{
    match v {
        Val::List(items, _) => {
            let b = bare(v)->List_0;
            assert forall|i: int| 0 <= i < items.len() implies pr_str_spec(b[i], readably)
                == pr_str_spec(items[i], readably) by {
                lemma_print_bare(items[i], readably);
            }
            assert(pr_all(b, readably) =~= pr_all(items, readably));
        },
        Val::Vector(items, _) => {
            let b = bare(v)->Vector_0;
            assert forall|i: int| 0 <= i < items.len() implies pr_str_spec(b[i], readably)
                == pr_str_spec(items[i], readably) by {
                lemma_print_bare(items[i], readably);
            }
            assert(pr_all(b, readably) =~= pr_all(items, readably));
        },
        _ => {},
    }
}

/// Whether `v` is a value whose readable text reads back as `v` itself:
/// it reads back, metadata aside, and holds no metadata.
pub open spec fn readable(v: Val) -> bool {
    reads_back(v) && plain(v)
}

/// Round trip: reading the readable text of a readable value gives that
/// value.
pub proof fn law_round_trip(v: Val)
    requires
        readable(v),
    ensures
        read_str_spec(pr_str_spec(v, true)) == Ok::<Val, crate::types::ErrVal>(v),
{
    lemma_read_printed(v);
    lemma_bare_plain(v);
}

/// Printing again: the readable text of a value that reads back, metadata
/// aside, reads as a value that has the same readable text.
pub proof fn law_print_read_print(v: Val)
    requires
        reads_back(v),
    ensures
        read_str_spec(pr_str_spec(v, true)) matches Ok(w) && pr_str_spec(w, true) == pr_str_spec(
            v,
            true,
        ),
{
    lemma_read_printed(v);
    lemma_print_bare(v, true);
}

/// Whether every string of `v` that begins with the keyword mark is the
/// text of a keyword.
pub open spec fn keywords_proper(v: Val) -> bool
    decreases v,
{
    match v {
        Val::Str(s) => is_keyword(s) ==> all_atom_chars(s.skip(1)),
        Val::List(items, _) => forall|i: int|
            0 <= i < items.len() ==> keywords_proper(#[trigger] items[i]),
        Val::Vector(items, _) => forall|i: int|
            0 <= i < items.len() ==> keywords_proper(#[trigger] items[i]),
        _ => true,
    }
}

/// Whether `v` is as the reader builds its values: without metadata, and
/// readable unless a string literal began with the keyword mark.
pub open spec fn as_read(v: Val) -> bool {
    plain(v) && (keywords_proper(v) ==> reads_back(v))
}

pub open spec fn all_as_read(items: Seq<Val>) -> bool {
    forall|i: int| 0 <= i < items.len() ==> as_read(#[trigger] items[i])
}

/// Whether `t` has the shape of a token: `~@`, a special character, a bare
/// atom, or something that a quote opens.
pub open spec fn is_lexeme(t: Seq<char>) -> bool {
    &&& t.len() > 0
    &&& {
        ||| t == seq!['~', '@']
        ||| t.len() == 1 && is_special(t[0])
        ||| t[0] == '"'
        ||| is_bare_atom(t)
    }
}

pub open spec fn all_lexemes(tokens: Seq<Seq<char>>) -> bool {
    forall|i: int| 0 <= i < tokens.len() ==> is_lexeme(#[trigger] tokens[i])
}

/// A run of atom characters holds atom characters.
pub proof fn lemma_atom_run_chars(s: Seq<char>)
    ensures
        atom_run(s) <= s.len(),
        forall|i: int| 0 <= i < atom_run(s) ==> is_atom_char(#[trigger] s[i]),
    decreases s.len(),
{
    if s.len() > 0 && is_atom_char(s[0]) {
        lemma_atom_run_chars(s.skip(1));
        assert forall|i: int| 0 <= i < atom_run(s) implies is_atom_char(#[trigger] s[i]) by {
            if i > 0 {
                assert(s[i] == s.skip(1)[i - 1]);
            }
        }
    }
}

/// Every token of a text has the shape of a token.
pub proof fn lemma_tokens_are_lexemes(s: Seq<char>)
    ensures
        all_lexemes(tokenize_spec(s)),
    decreases s.len(),
{
    crate::lexer::lemma_blank_run_bound(s);
    if blank_run(s) < s.len() {
        let t = s.skip(blank_run(s) as int);
        let n = lexeme_len(t);
        crate::lexer::lemma_lexeme_len_bound(t);
        lemma_tokens_are_lexemes(t.skip(n as int));
        let rest = tokenize_spec(t.skip(n as int));
        if t[0] != ';' {
            let a = t.take(n as int);
            assert(a[0] == t[0]);
            if t[0] == '~' && t.len() > 1 && t[1] == '@' {
                assert(a =~= seq!['~', '@']);
            } else if is_special(t[0]) {
            } else if t[0] == '"' {
            } else {
                lemma_atom_run_chars(t.skip(1));
                assert forall|i: int| 0 <= i < a.len() implies is_atom_char(#[trigger] a[i]) by {
                    if i > 0 {
                        assert(a[i] == t.skip(1)[i - 1]);
                    }
                }
                assert(is_bare_atom(a));
            }
            assert(is_lexeme(a));
            let all = seq![a] + rest;
            assert forall|i: int| 0 <= i < all.len() implies is_lexeme(#[trigger] all[i]) by {
                if i > 0 {
                    assert(all[i] == rest[i - 1]);
                }
            }
        }
    }
}

/// What a token that is none of the grammar of forms reads as is as the
/// reader builds its values.
pub proof fn lemma_read_atom_as_read(t: Seq<char>)
    requires
        is_lexeme(t),
        !is_form_token(t),
    ensures
        read_atom_spec(t) matches Ok(v) ==> as_read(v),
{
    lemma_token_texts();
    if t == "nil"@ || t == "false"@ || t == "true"@ || is_int_text(t) || is_string_literal(t)
        || t[0] == '"' {
    } else if t[0] == ':' {
        let s = seq![KEYWORD_MARK] + t.skip(1);
        assert(is_bare_atom(t));
        assert(s.skip(1) =~= t.skip(1));
        assert forall|i: int| 0 <= i < t.skip(1).len() implies is_atom_char(
            #[trigger] t.skip(1)[i],
        ) by {
            assert(t.skip(1)[i] == t[i + 1]);
        }
    } else {
        if t.len() == 1 && is_special(t[0]) {
            assert(t =~= seq![t[0]]);
            assert(is_mark_symbol(t));
        }
        assert(is_symbol_text(t));
    }
}

/// The symbol `quote` is the text of a symbol.
pub proof fn lemma_quote_symbol()
    ensures
        is_symbol_text("quote"@),
{
    reveal_strlit("quote");
    lemma_token_texts();
    let q = "quote"@;
    assert(q =~= seq!['q', 'u', 'o', 't', 'e']);
    assert(!is_digit(q[0]));
}

/// What is read from tokens is as the reader builds its values.
pub proof fn lemma_read_seq_as_read(
    tokens: Seq<Seq<char>>,
    pos: nat,
    end: Seq<char>,
    items: Seq<Val>,
)
    requires
        all_lexemes(tokens),
        all_as_read(items),
    ensures
        read_seq_spec(tokens, pos, end, items).0 matches Ok(v) ==> as_read(v),
    decreases tokens.len() - pos, 1nat,
{
    if pos >= tokens.len() {
    } else if tokens[pos as int] == end {
        lemma_token_texts();
        if end == ")"@ {
            let v = list_of(items);
            assert(plain(v));
            if keywords_proper(v) {
                assert(v matches Val::List(its, _) && its == items);
                assert(forall|i: int|
                    0 <= i < items.len() ==> keywords_proper(#[trigger] items[i]));
                assert forall|i: int| 0 <= i < items.len() implies reads_back(
                    #[trigger] items[i],
                ) by {
                    assert(as_read(items[i]));
                    assert(keywords_proper(items[i]));
                }
            }
        } else if end == "]"@ {
            let v = vector_of(items);
            assert(plain(v));
            if keywords_proper(v) {
                assert(v matches Val::Vector(its, _) && its == items);
                assert(forall|i: int|
                    0 <= i < items.len() ==> keywords_proper(#[trigger] items[i]));
                assert forall|i: int| 0 <= i < items.len() implies reads_back(
                    #[trigger] items[i],
                ) by {
                    assert(as_read(items[i]));
                    assert(keywords_proper(items[i]));
                }
            }
        }
    } else {
        let (r, p) = read_form_spec(tokens, pos);
        lemma_read_form_as_read(tokens, pos);
        if r is Ok && pos < p <= tokens.len() {
            let next = items.push(r->Ok_0);
            assert forall|i: int| 0 <= i < next.len() implies as_read(#[trigger] next[i]) by {
                if i < items.len() {
                    assert(next[i] == items[i]);
                }
            }
            lemma_read_seq_as_read(tokens, p, end, next);
        }
    }
}

/// The part of [`lemma_read_seq_as_read`] that speaks of one form.
pub proof fn lemma_read_form_as_read(tokens: Seq<Seq<char>>, pos: nat)
    requires
        all_lexemes(tokens),
    ensures
        read_form_spec(tokens, pos).0 matches Ok(v) ==> as_read(v),
    decreases tokens.len() - pos, 0nat,
{
    if pos < tokens.len() {
        let t = tokens[pos as int];
        assert(is_lexeme(t));
        if t == "'"@ {
            lemma_read_form_as_read(tokens, pos + 1);
            let r = read_form_spec(tokens, pos + 1).0;
            if r is Ok {
                let v = r->Ok_0;
                let items = seq![Val::Sym("quote"@), v];
                lemma_quote_symbol();
                assert(as_read(v));
                assert(plain(items[0]));
                assert(plain(items[1]));
                assert(reads_back(items[0]));
                assert(plain(list_of(items)));
                if keywords_proper(list_of(items)) {
                    assert(keywords_proper(items[1]));
                    assert forall|i: int| 0 <= i < items.len() implies reads_back(
                        #[trigger] items[i],
                    ) by {
                    }
                }
            }
        } else if t == ")"@ || t == "]"@ || t == "}"@ {
        } else if t == "("@ {
            lemma_read_seq_as_read(tokens, pos + 1, ")"@, Seq::empty());
        } else if t == "["@ {
            lemma_read_seq_as_read(tokens, pos + 1, "]"@, Seq::empty());
        } else if t == "{"@ {
            lemma_read_seq_as_read(tokens, pos + 1, "}"@, Seq::empty());
        } else {
            lemma_read_atom_as_read(t);
        }
    }
}

/// What the reader gives for a text is without metadata, and readable
/// unless a string literal of the text began with the keyword mark.
pub proof fn lemma_read_str_as_read(text: Seq<char>)
    ensures
        read_str_spec(text) matches Ok(v) ==> as_read(v),
{
    lemma_tokens_are_lexemes(text);
    lemma_read_form_as_read(tokenize_spec(text), 0);
}

/// Round trip from text: where the reader gives a value for a text, and no
/// string of the value begins with the keyword mark but a keyword's,
/// reading the readable text of the value gives the value again.
pub proof fn law_read_print_read(text: Seq<char>)
    requires
        read_str_spec(text) is Ok,
        keywords_proper(read_str_spec(text)->Ok_0),
    ensures
        read_str_spec(pr_str_spec(read_str_spec(text)->Ok_0, true)) == read_str_spec(text),
{
    lemma_read_str_as_read(text);
    law_round_trip(read_str_spec(text)->Ok_0);
}

/// Printing is idempotent from text: where the reader gives a value for a
/// text, and no string of the value begins with the keyword mark but a
/// keyword's, the readable text of the value reads as a value with the
/// same readable text.
pub proof fn law_print_is_idempotent(text: Seq<char>)
    requires
        read_str_spec(text) is Ok,
        keywords_proper(read_str_spec(text)->Ok_0),
    ensures
        read_str_spec(pr_str_spec(read_str_spec(text)->Ok_0, true)) matches Ok(w) && pr_str_spec(
            w,
            true,
        ) == pr_str_spec(read_str_spec(text)->Ok_0, true),
{
    law_read_print_read(text);
}

/// Whether no character of `s` is the keyword mark.
pub open spec fn mark_free(s: Seq<char>) -> bool {
    forall|i: int| 0 <= i < s.len() ==> #[trigger] s[i] != KEYWORD_MARK
}

pub open spec fn all_mark_free(tokens: Seq<Seq<char>>) -> bool {
    forall|i: int| 0 <= i < tokens.len() ==> mark_free(#[trigger] tokens[i])
}

pub open spec fn all_keywords_proper(items: Seq<Val>) -> bool {
    forall|i: int| 0 <= i < items.len() ==> keywords_proper(#[trigger] items[i])
}

/// The tokens of a text without the keyword mark are without it.
pub proof fn lemma_tokens_mark_free(s: Seq<char>)
    requires
        mark_free(s),
    ensures
        all_mark_free(tokenize_spec(s)),
    decreases s.len(),
{
    crate::lexer::lemma_blank_run_bound(s);
    if blank_run(s) < s.len() {
        let b = blank_run(s) as int;
        let t = s.skip(b);
        let n = lexeme_len(t) as int;
        crate::lexer::lemma_lexeme_len_bound(t);
        let after = t.skip(n);
        assert forall|i: int| 0 <= i < after.len() implies #[trigger] after[i] != KEYWORD_MARK by {
            assert(after[i] == s[b + n + i]);
        }
        lemma_tokens_mark_free(after);
        let rest = tokenize_spec(after);
        if t[0] != ';' {
            let a = t.take(n);
            assert forall|i: int| 0 <= i < a.len() implies #[trigger] a[i] != KEYWORD_MARK by {
                assert(a[i] == s[b + i]);
            }
            let all = seq![a] + rest;
            assert forall|i: int| 0 <= i < all.len() implies mark_free(#[trigger] all[i]) by {
                if i > 0 {
                    assert(all[i] == rest[i - 1]);
                }
            }
        }
    }
}

/// Unescaping a text without the keyword mark gives a text without it.
pub proof fn lemma_unescape_mark_free(s: Seq<char>)
    requires
        mark_free(s),
    ensures
        mark_free(unescape(s)),
    decreases s.len(),
{
    if s.len() > 0 {
        let k: int = if s[0] == '\\' && s.len() >= 2 {
            2
        } else {
            1
        };
        let tail = s.skip(k);
        assert forall|i: int| 0 <= i < tail.len() implies #[trigger] tail[i] != KEYWORD_MARK by {
            assert(tail[i] == s[k + i]);
        }
        lemma_unescape_mark_free(tail);
        let u = unescape(s);
        assert forall|i: int| 0 <= i < u.len() implies #[trigger] u[i] != KEYWORD_MARK by {
            if i > 0 {
                assert(u[i] == unescape(tail)[i - 1]);
            } else if k == 2 {
                assert(s[1] != KEYWORD_MARK);
            } else {
                assert(s[0] != KEYWORD_MARK);
            }
        }
    }
}

/// What a token without the keyword mark reads as holds the mark only at
/// the head of a keyword.
pub proof fn lemma_read_atom_proper(t: Seq<char>)
    requires
        is_lexeme(t),
        mark_free(t),
    ensures
        read_atom_spec(t) matches Ok(v) ==> keywords_proper(v),
{
    lemma_token_texts();
    if t == "nil"@ || t == "false"@ || t == "true"@ || is_int_text(t) {
    } else if is_string_literal(t) {
        let body = t.subrange(1, t.len() - 1);
        assert forall|i: int| 0 <= i < body.len() implies #[trigger] body[i] != KEYWORD_MARK by {
            assert(body[i] == t[i + 1]);
        }
        lemma_unescape_mark_free(body);
        let u = unescape(body);
        if u.len() > 0 {
            assert(u[0] != KEYWORD_MARK);
        }
    } else if t[0] == '"' {
    } else if t[0] == ':' {
        let s = seq![KEYWORD_MARK] + t.skip(1);
        assert(is_bare_atom(t));
        assert(s.skip(1) =~= t.skip(1));
        assert forall|i: int| 0 <= i < t.skip(1).len() implies is_atom_char(
            #[trigger] t.skip(1)[i],
        ) by {
            assert(t.skip(1)[i] == t[i + 1]);
        }
    }
}

/// What is read from tokens without the keyword mark holds the mark only
/// at the head of a keyword.
pub proof fn lemma_read_seq_proper(
    tokens: Seq<Seq<char>>,
    pos: nat,
    end: Seq<char>,
    items: Seq<Val>,
)
    requires
        all_lexemes(tokens),
        all_mark_free(tokens),
        all_keywords_proper(items),
    ensures
        read_seq_spec(tokens, pos, end, items).0 matches Ok(v) ==> keywords_proper(v),
    decreases tokens.len() - pos, 1nat,
{
    if pos >= tokens.len() {
    } else if tokens[pos as int] == end {
        lemma_token_texts();
        if end == ")"@ {
            let v = list_of(items);
            assert(v matches Val::List(its, _) && its == items);
        } else if end == "]"@ {
            let v = vector_of(items);
            assert(v matches Val::Vector(its, _) && its == items);
        }
    } else {
        let (r, p) = read_form_spec(tokens, pos);
        lemma_read_form_proper(tokens, pos);
        if r is Ok && pos < p <= tokens.len() {
            let next = items.push(r->Ok_0);
            assert forall|i: int| 0 <= i < next.len() implies keywords_proper(
                #[trigger] next[i],
            ) by {
                if i < items.len() {
                    assert(next[i] == items[i]);
                }
            }
            lemma_read_seq_proper(tokens, p, end, next);
        }
    }
}

/// The part of [`lemma_read_seq_proper`] that speaks of one form.
pub proof fn lemma_read_form_proper(tokens: Seq<Seq<char>>, pos: nat)
    requires
        all_lexemes(tokens),
        all_mark_free(tokens),
    ensures
        read_form_spec(tokens, pos).0 matches Ok(v) ==> keywords_proper(v),
    decreases tokens.len() - pos, 0nat,
{
    if pos < tokens.len() {
        let t = tokens[pos as int];
        assert(is_lexeme(t));
        assert(mark_free(t));
        if t == "'"@ {
            lemma_read_form_proper(tokens, pos + 1);
            let r = read_form_spec(tokens, pos + 1).0;
            if r is Ok {
                let items = seq![Val::Sym("quote"@), r->Ok_0];
                assert(keywords_proper(items[0]));
                assert(keywords_proper(items[1]));
                assert(list_of(items) matches Val::List(its, _) && its == items);
            }
        } else if t == ")"@ || t == "]"@ || t == "}"@ {
        } else if t == "("@ {
            lemma_read_seq_proper(tokens, pos + 1, ")"@, Seq::empty());
        } else if t == "["@ {
            lemma_read_seq_proper(tokens, pos + 1, "]"@, Seq::empty());
        } else if t == "{"@ {
            lemma_read_seq_proper(tokens, pos + 1, "}"@, Seq::empty());
        } else {
            lemma_read_atom_proper(t);
        }
    }
}

/// What the reader gives for a text without the keyword mark holds the
/// mark only at the head of a keyword.
pub proof fn lemma_mark_free_text_reads_proper(text: Seq<char>)
    requires
        mark_free(text),
    ensures
        read_str_spec(text) matches Ok(v) ==> keywords_proper(v),
{
    lemma_tokens_are_lexemes(text);
    lemma_tokens_mark_free(text);
    lemma_read_form_proper(tokenize_spec(text), 0);
}

/// Round trip of a text: where the reader gives a value for a text that
/// holds no keyword mark, reading the readable text of the value gives the
/// value again.
pub proof fn law_text_round_trip(text: Seq<char>)
    requires
        mark_free(text),
        read_str_spec(text) is Ok,
    ensures
        read_str_spec(pr_str_spec(read_str_spec(text)->Ok_0, true)) == read_str_spec(text),
{
    lemma_mark_free_text_reads_proper(text);
    law_read_print_read(text);
}

/// Printing a text is idempotent: where the reader gives a value for a text
/// that holds no keyword mark, the readable text of the value reads as a
/// value with the same readable text.
pub proof fn law_text_print_is_idempotent(text: Seq<char>)
    requires
        mark_free(text),
        read_str_spec(text) is Ok,
    ensures
        read_str_spec(pr_str_spec(read_str_spec(text)->Ok_0, true)) matches Ok(w) && pr_str_spec(
            w,
            true,
        ) == pr_str_spec(read_str_spec(text)->Ok_0, true),
{
    law_text_round_trip(text);
}

} // verus!
