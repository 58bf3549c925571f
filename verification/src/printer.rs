//! The printer: the text of a value.

use vstd::prelude::*;
use vstd::string::StringExecFns;
use crate::number::{int_text, int_to_text};
use crate::text::{chars_of, text_of};
use crate::types::{models, BeeVal, Val, KEYWORD_MARK};

verus! {

/// What stands for the character `c` inside a string literal.
pub open spec fn escape_char(c: char) -> Seq<char> {
    if c == '"' {
        seq!['\\', '"']
    } else if c == '\n' {
        seq!['\\', 'n']
    } else if c == '\\' {
        seq!['\\', '\\']
    } else {
        seq![c]
    }
}

/// The text `s` with the quote, the newline and the backslash escaped.
pub open spec fn escape_text(s: Seq<char>) -> Seq<char>
    decreases s.len(),
{
    if s.len() == 0 {
        Seq::empty()
    } else {
        escape_char(s[0]) + escape_text(s.skip(1))
    }
}

/// The texts `parts` in order, with `sep` between each two neighbours.
pub open spec fn join_texts(parts: Seq<Seq<char>>, sep: Seq<char>) -> Seq<char>
    decreases parts.len(),
{
    if parts.len() == 0 {
        Seq::empty()
    } else if parts.len() == 1 {
        parts[0]
    } else {
        parts[0] + sep + join_texts(parts.skip(1), sep)
    }
}

/// Whether the string `s` is a keyword.
pub open spec fn is_keyword(s: Seq<char>) -> bool {
    s.len() > 0 && s[0] == KEYWORD_MARK
}

/// The text of the value `v`. With `readably`, a string is printed as the
/// literal that reads back as that string; without, as its bare characters.
pub open spec fn pr_str_spec(v: Val, readably: bool) -> Seq<char>
    decreases v, 0nat,
{
    match v {
        Val::Nil => "nil"@,
        Val::Bool(b) => if b {
            "true"@
        } else {
            "false"@
        },
        Val::Int(i) => int_text(i as int),
        Val::Str(s) => if is_keyword(s) {
            seq![':'] + s.skip(1)
        } else if readably {
            seq!['"'] + escape_text(s) + seq!['"']
        } else {
            s
        },
        Val::Sym(s) => s,
        Val::List(items, _) => "("@ + join_texts(pr_all(items, readably), " "@) + ")"@,
        Val::Vector(items, _) => "["@ + join_texts(pr_all(items, readably), " "@) + "]"@,
        Val::Func(_, _) => "#<builtin>"@,
    }
}

/// The texts of the values `items`, in order.
pub open spec fn pr_all(items: Seq<Val>, readably: bool) -> Seq<Seq<char>>
    decreases items, 1nat,
{
    Seq::new(
        items.len(),
        |i: int|
            if 0 <= i < items.len() {
                pr_str_spec(items[i], readably)
            } else {
                Seq::empty()
            },
    )
}

/// The texts of `items` between `start` and `end`, with `join` between each
/// two neighbours.
pub open spec fn pr_seq_spec(
    items: Seq<Val>,
    readably: bool,
    start: Seq<char>,
    end: Seq<char>,
    join: Seq<char>,
) -> Seq<char> {
    start + join_texts(pr_all(items, readably), join) + end
}

/// What is still to be written of `join_texts(parts, sep)` once the first
/// `i` parts are out.
pub open spec fn join_rest(parts: Seq<Seq<char>>, sep: Seq<char>, i: int) -> Seq<char> {
    if i == 0 {
        join_texts(parts, sep)
    } else if i >= parts.len() {
        Seq::empty()
    } else {
        sep + join_texts(parts.skip(i), sep)
    }
}

/// Writing part `i`, after the separator if it is not the first, leaves
/// what is to be written from `i + 1` on.
pub proof fn lemma_join_step(parts: Seq<Seq<char>>, sep: Seq<char>, i: int)
    requires
        0 <= i < parts.len(),
    ensures
        join_rest(parts, sep, i) == (if i > 0 {
            sep
        } else {
            Seq::empty()
        }) + parts[i] + join_rest(parts, sep, i + 1),
{
    let rest = parts.skip(i);
    assert(rest.skip(1) =~= parts.skip(i + 1));
    if i == 0 {
        assert(join_rest(parts, sep, i) =~= Seq::<char>::empty() + parts[i] + join_rest(
            parts,
            sep,
            i + 1,
        ));
    }
}

/// The text `s` with the quote, the newline and the backslash escaped.
pub fn escape_str(s: &str) -> (r: String)
    ensures
        r@ == escape_text(s@),
{
    let v = chars_of(s);
    let mut out = String::new();
    let mut i: usize = 0;
    assert(v@.skip(0) =~= v@);
    while i < v.len()
        invariant
            i <= v.len(),
            v@ == s@,
            out@ + escape_text(v@.skip(i as int)) == escape_text(v@),
        decreases v.len() - i,
    {
        let c = v[i];
        assert(v@.skip(i as int).skip(1) =~= v@.skip(i + 1));
        if c == '"' {
            out.push('\\');
            out.push('"');
        } else if c == '\n' {
            out.push('\\');
            out.push('n');
        } else if c == '\\' {
            out.push('\\');
            out.push('\\');
        } else {
            out.push(c);
        }
        i += 1;
    }
    out
}

impl BeeVal {
    /// The text of `self`. With `print_readably`, a string is printed as the
    /// literal that reads back as that string.
    pub fn pr_str(&self, print_readably: bool) -> (r: String)
        ensures
            r@ == pr_str_spec(self@, print_readably),
        decreases self@, 0nat,
    {
        match self {
            BeeVal::Nil => String::from_str("nil"),
            BeeVal::Bool(true) => String::from_str("true"),
            BeeVal::Bool(false) => String::from_str("false"),
            BeeVal::Int(i) => int_to_text(*i),
            BeeVal::Str(s) => {
                let v = chars_of(s.as_str());
                if v.len() > 0 && v[0] == KEYWORD_MARK {
                    let mut out = String::new();
                    out.push(':');
                    let name = text_of(&v, 1, v.len());
                    out.append(name.as_str());
                    out
                } else if print_readably {
                    let mut out = String::new();
                    out.push('"');
                    let e = escape_str(s.as_str());
                    out.append(e.as_str());
                    out.push('"');
                    out
                } else {
                    s.clone()
                }
            },
            BeeVal::Sym(s) => s.clone(),
            BeeVal::List(l, m) => {
                proof {
                    crate::types::lemma_model_list(*l, *m);
                    assert(self@->List_0 == models(l@));
                }
                pr_seq(l.as_slice(), print_readably, "(", ")", " ")
            },
            BeeVal::Vector(l, m) => {
                proof {
                    crate::types::lemma_model_list(*l, *m);
                    assert(self@->Vector_0 == models(l@));
                }
                pr_seq(l.as_slice(), print_readably, "[", "]", " ")
            },
            BeeVal::Func(_, _) => String::from_str("#<builtin>"),
        }
    }
}

/// The texts of the values of `seq` between `start` and `end`, with `join`
/// between each two neighbours.
pub fn pr_seq(seq: &[BeeVal], print_readably: bool, start: &str, end: &str, join: &str) -> (r:
    String)
    ensures
        r@ == pr_seq_spec(models(seq@), print_readably, start@, end@, join@),
    decreases models(seq@), 1nat,
{
    let ghost parts = pr_all(models(seq@), print_readably);
    let mut out = String::from_str(start);
    let mut i: usize = 0;
    while i < seq.len()
        invariant
            i <= seq.len(),
            parts == pr_all(models(seq@), print_readably),
            parts.len() == seq.len(),
            out@ + join_rest(parts, join@, i as int) == start@ + join_texts(parts, join@),
        decreases seq.len() - i,
    {
        let ghost before = out@;
        if i > 0 {
            out.append(join);
        }
        let s = seq[i].pr_str(print_readably);
        out.append(s.as_str());
        proof {
            lemma_join_step(parts, join@, i as int);
            assert(out@ + join_rest(parts, join@, i + 1) =~= before + join_rest(
                parts,
                join@,
                i as int,
            ));
        }
        i += 1;
    }
    out.append(end);
    out
}

} // verus!
