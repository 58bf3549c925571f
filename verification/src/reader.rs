//! The reader: tokens parsed into one value.

use vstd::prelude::*;
use vstd::string::StringExecFns;
use crate::lexer::{scan_string, string_run, texts, tokenize, tokenize_spec};
use crate::number::{int_value, is_int_text, is_int_token, parse_int};
use crate::text::{chars_of, text_of};
use crate::types::{
    error, failure, hash_map, hash_map_unsupported, list, list_of, models, vector, vector_of,
    outcome, BeeErr, BeeRet, BeeVal, Outcome, Val, KEYWORD_MARK,
};

verus! {

/// The tokens of one line and the position of the next token to read.
#[derive(Debug, Clone)]
pub struct Reader {
    pub tokens: Vec<String>,
    pub pos: usize,
}

impl Reader {
    /// The texts of the tokens.
    pub open spec fn token_texts(self) -> Seq<Seq<char>> {
        texts(self.tokens@)
    }
}

/// The text `s` with each backslash and the character that it takes along
/// replaced by what they stand for: a newline for `\n`, else the character
/// itself. A backslash takes the next character along, whatever it is; one
/// that is the last character of `s` stays as it is.
pub open spec fn unescape(s: Seq<char>) -> Seq<char>
    decreases s.len(),
{
    if s.len() == 0 {
        Seq::empty()
    } else if s[0] == '\\' && s.len() >= 2 {
        seq![if s[1] == 'n' {
            '\n'
        } else {
            s[1]
        }] + unescape(s.skip(2))
    } else {
        seq![s[0]] + unescape(s.skip(1))
    }
}

/// Whether the string literal whose opening quote stands just before `s`
/// is closed by a quote in `s`.
pub open spec fn string_closed(s: Seq<char>) -> bool
    decreases s.len(),
{
    if s.len() == 0 {
        false
    } else if s[0] == '"' {
        true
    } else if s[0] == '\\' {
        s.len() >= 2 && string_closed(s.skip(2))
    } else {
        string_closed(s.skip(1))
    }
}

/// Whether the token `t` is a complete string literal: it opens with a
/// quote, and the quote that closes it is its last character.
pub open spec fn is_string_literal(t: Seq<char>) -> bool {
    &&& t.len() >= 2
    &&& t[0] == '"'
    &&& string_closed(t.skip(1))
    &&& 1 + string_run(t.skip(1)) == t.len()
}

pub open spec fn underflow() -> Seq<char> {
    "underflow"@
}

pub open spec fn int_out_of_range() -> Seq<char> {
    "Integer out of range"@
}

pub open spec fn unterminated_string() -> Seq<char> {
    "Expected '\"', got EOF"@
}

/// The words of the failure of a sequence that `end` never closes.
pub open spec fn expected_end(end: Seq<char>) -> Seq<char> {
    "Expected '"@ + end + "', got EOF"@
}

pub open spec fn unknown_end() -> Seq<char> {
    "read_seq unknown end value"@
}

/// What the single token `t` reads as.
pub open spec fn read_atom_spec(t: Seq<char>) -> Outcome {
    if t == "nil"@ {
        Ok(Val::Nil)
    } else if t == "false"@ {
        Ok(Val::Bool(false))
    } else if t == "true"@ {
        Ok(Val::Bool(true))
    } else if is_int_text(t) {
        if i64::MIN <= int_value(t) <= i64::MAX {
            Ok(Val::Int(int_value(t) as i64))
        } else {
            failure(int_out_of_range())
        }
    } else if is_string_literal(t) {
        Ok(Val::Str(unescape(t.subrange(1, t.len() - 1))))
    } else if t.len() > 0 && t[0] == '"' {
        failure(unterminated_string())
    } else if t.len() > 0 && t[0] == ':' {
        Ok(Val::Str(seq![KEYWORD_MARK] + t.skip(1)))
    } else {
        Ok(Val::Sym(t))
    }
}

/// What reading one atom at `pos` gives, and the position after it.
pub open spec fn read_atom_at(tokens: Seq<Seq<char>>, pos: nat) -> (Outcome, nat) {
    if pos >= tokens.len() {
        (failure(underflow()), pos)
    } else {
        (read_atom_spec(tokens[pos as int]), pos + 1)
    }
}

/// The value of a sequence with the elements `items` that `end` closed.
pub open spec fn close_seq(end: Seq<char>, items: Seq<Val>) -> Outcome {
    if end == ")"@ {
        Ok(list_of(items))
    } else if end == "]"@ {
        Ok(vector_of(items))
    } else if end == "}"@ {
        failure(hash_map_unsupported())
    } else {
        failure(unknown_end())
    }
}

/// The form `(quote v)`.
pub open spec fn quoted(v: Val) -> Val {
    list_of(seq![Val::Sym("quote"@), v])
}

/// What reading one form at `pos` gives, and the position after it.
pub open spec fn read_form_spec(tokens: Seq<Seq<char>>, pos: nat) -> (Outcome, nat)
    decreases tokens.len() - pos, 0nat,
{
    if pos >= tokens.len() {
        (failure(underflow()), pos)
    } else {
        let t = tokens[pos as int];
        if t == "'"@ {
            let (r, p) = read_form_spec(tokens, pos + 1);
            (
                match r {
                    Ok(v) => Ok(quoted(v)),
                    Err(e) => Err(e),
                },
                p,
            )
        } else if t == ")"@ {
            (failure("Unexpected ')'"@), pos)
        } else if t == "]"@ {
            (failure("Unexpected ']'"@), pos)
        } else if t == "}"@ {
            (failure("Unexpected '}'"@), pos)
        } else if t == "("@ {
            read_seq_spec(tokens, pos + 1, ")"@, Seq::empty())
        } else if t == "["@ {
            read_seq_spec(tokens, pos + 1, "]"@, Seq::empty())
        } else if t == "{"@ {
            read_seq_spec(tokens, pos + 1, "}"@, Seq::empty())
        } else {
            read_atom_at(tokens, pos)
        }
    }
}

/// What reading the rest of a sequence gives, whose elements so far are
/// `items` and whose next token stands at `pos`: forms are read until the
/// token `end`, which is consumed. Also the position after it.
pub open spec fn read_seq_spec(
    tokens: Seq<Seq<char>>,
    pos: nat,
    end: Seq<char>,
    items: Seq<Val>,
) -> (Outcome, nat)
    decreases tokens.len() - pos, 1nat,
{
    if pos >= tokens.len() {
        (failure(expected_end(end)), pos)
    } else if tokens[pos as int] == end {
        (close_seq(end, items), pos + 1)
    } else {
        let (r, p) = read_form_spec(tokens, pos);
        match r {
            Ok(v) => if pos < p <= tokens.len() {
                read_seq_spec(tokens, p, end, items.push(v))
            } else {
                // never so: a form that is read takes one token at least
                (failure(underflow()), p)
            },
            Err(e) => (Err(e), p),
        }
    }
}

/// What reading the text `s` gives: the first form of its tokens.
pub open spec fn read_str_spec(s: Seq<char>) -> Outcome {
    read_form_spec(tokenize_spec(s), 0).0
}

/// Reading never moves back, never passes the last token, and a form that
/// is read takes one token at least.
pub proof fn lemma_read_advances(tokens: Seq<Seq<char>>, pos: nat, end: Seq<char>, items: Seq<Val>)
    requires
        pos <= tokens.len(),
    ensures
        pos <= read_form_spec(tokens, pos).1 <= tokens.len(),
        read_form_spec(tokens, pos).0 is Ok ==> pos < read_form_spec(tokens, pos).1,
        pos <= read_seq_spec(tokens, pos, end, items).1 <= tokens.len(),
        read_seq_spec(tokens, pos, end, items).0 is Ok ==> pos < read_seq_spec(
            tokens,
            pos,
            end,
            items,
        ).1,
    decreases tokens.len() - pos, 1nat,
{
    lemma_read_form_advances(tokens, pos);
    if pos < tokens.len() && tokens[pos as int] != end {
        let (r, p) = read_form_spec(tokens, pos);
        if r is Ok {
            lemma_read_advances(tokens, p, end, items.push(r->Ok_0));
        }
    }
}

/// The part of [`lemma_read_advances`] that speaks of one form.
pub proof fn lemma_read_form_advances(tokens: Seq<Seq<char>>, pos: nat)
    requires
        pos <= tokens.len(),
    ensures
        pos <= read_form_spec(tokens, pos).1 <= tokens.len(),
        read_form_spec(tokens, pos).0 is Ok ==> pos < read_form_spec(tokens, pos).1,
    decreases tokens.len() - pos, 0nat,
{
    if pos < tokens.len() {
        let t = tokens[pos as int];
        if t == "'"@ {
            lemma_read_form_advances(tokens, pos + 1);
        } else if t == ")"@ || t == "]"@ || t == "}"@ {
        } else if t == "("@ {
            lemma_read_advances(tokens, pos + 1, ")"@, Seq::empty());
        } else if t == "["@ {
            lemma_read_advances(tokens, pos + 1, "]"@, Seq::empty());
        } else if t == "{"@ {
            lemma_read_advances(tokens, pos + 1, "}"@, Seq::empty());
        }
    }
}

/// Whether the tokens `a` and `b` are the same from `from` up to `to`.
pub open spec fn same_tokens(a: Seq<Seq<char>>, b: Seq<Seq<char>>, from: nat, to: nat) -> bool {
    &&& to <= a.len()
    &&& to <= b.len()
    &&& forall|i: int| from <= i < to ==> a[i] == b[i]
}

/// A sequence that is read depends only on the tokens that it takes: what
/// stands after its closer, and what stood before, makes no difference.
pub proof fn lemma_read_seq_takes_its_tokens(
    a: Seq<Seq<char>>,
    b: Seq<Seq<char>>,
    pos: nat,
    end: Seq<char>,
    items: Seq<Val>,
)
    requires
        read_seq_spec(a, pos, end, items).0 is Ok,
        same_tokens(a, b, pos, read_seq_spec(a, pos, end, items).1),
    ensures
        read_seq_spec(b, pos, end, items) == read_seq_spec(a, pos, end, items),
    decreases a.len() - pos, 1nat,
{
    let last = read_seq_spec(a, pos, end, items).1;
    if pos < a.len() {
        lemma_read_advances(a, pos, end, items);
        assert(a[pos as int] == b[pos as int]);
        if a[pos as int] != end {
            let (r, p) = read_form_spec(a, pos);
            lemma_read_form_advances(a, pos);
            lemma_read_advances(a, p, end, items.push(r->Ok_0));
            lemma_read_form_takes_its_tokens(a, b, pos);
            lemma_read_seq_takes_its_tokens(a, b, p, end, items.push(r->Ok_0));
        }
    }
}

/// A form that is read depends only on the tokens that it takes.
pub proof fn lemma_read_form_takes_its_tokens(a: Seq<Seq<char>>, b: Seq<Seq<char>>, pos: nat)
    requires
        read_form_spec(a, pos).0 is Ok,
        same_tokens(a, b, pos, read_form_spec(a, pos).1),
    ensures
        read_form_spec(b, pos) == read_form_spec(a, pos),
    decreases a.len() - pos, 0nat,
{
    if pos < a.len() {
        lemma_read_form_advances(a, pos);
        let t = a[pos as int];
        assert(t == b[pos as int]);
        if t == "'"@ {
            lemma_read_form_takes_its_tokens(a, b, pos + 1);
        } else if t == ")"@ || t == "]"@ || t == "}"@ {
        } else if t == "("@ {
            lemma_read_seq_takes_its_tokens(a, b, pos + 1, ")"@, Seq::empty());
        } else if t == "["@ {
            lemma_read_seq_takes_its_tokens(a, b, pos + 1, "]"@, Seq::empty());
        } else if t == "{"@ {
            lemma_read_seq_takes_its_tokens(a, b, pos + 1, "}"@, Seq::empty());
        }
    }
}

/// Whether the string `s` spells `lit`.
pub fn is_text(s: &String, lit: &str) -> (b: bool)
    ensures
        b == (s@ == lit@),
{
    let l = String::from_str(lit);
    *s == l
}

impl Reader {
    /// The token at the position, where there is one.
    pub fn get_token(&mut self) -> (r: Result<String, BeeErr>)
        ensures
            *final(self) == *old(self),
            match r {
                Ok(t) => old(self).pos < old(self).tokens.len() && t@ == old(
                    self,
                ).token_texts()[old(self).pos as int],
                Err(e) => old(self).pos >= old(self).tokens.len() && e@ == crate::types::ErrVal::Text(
                    underflow(),
                ),
            },
    {
        if self.pos < self.tokens.len() {
            Ok(self.tokens[self.pos].clone())
        } else {
            Err(BeeErr::ErrString(String::from_str("underflow")))
        }
    }

    /// Moves to the next token.
    pub fn step(&mut self)
        requires
            old(self).pos < usize::MAX,
        ensures
            final(self).tokens == old(self).tokens,
            final(self).pos == old(self).pos + 1,
    {
        self.pos += 1;
    }
}

/// The text `s` with its escapes replaced by what they stand for.
pub fn unescape_str(s: &str) -> (r: String)
    ensures
        r@ == unescape(s@),
{
    let v = chars_of(s);
    let mut out = String::new();
    let mut i: usize = 0;
    assert(v@.skip(0) =~= v@);
    while i < v.len()
        invariant
            i <= v.len(),
            v@ == s@,
            out@ + unescape(v@.skip(i as int)) == unescape(v@),
        decreases v.len() - i,
    {
        let ghost rest = v@.skip(i as int);
        let c = v[i];
        if c == '\\' && i + 1 < v.len() {
            let d = v[i + 1];
            assert(rest.skip(2) =~= v@.skip(i + 2));
            if d == 'n' {
                out.push('\n');
            } else {
                out.push(d);
            }
            i += 2;
        } else {
            assert(rest.skip(1) =~= v@.skip(i + 1));
            out.push(c);
            i += 1;
        }
    }
    out
}

/// Whether a quote in `v[i..]` closes the string literal whose opening
/// quote stands just before `i`.
pub fn closes_string(v: &Vec<char>, i: usize) -> (b: bool)
    requires
        i <= v.len(),
    ensures
        b == string_closed(v@.skip(i as int)),
{
    let mut j: usize = i;
    while j < v.len()
        invariant
            i <= j <= v.len(),
            string_closed(v@.skip(i as int)) == string_closed(v@.skip(j as int)),
        decreases v.len() - j,
    {
        let c = v[j];
        if c == '"' {
            return true;
        } else if c == '\\' {
            if j + 1 < v.len() {
                assert(v@.skip(j as int).skip(2) =~= v@.skip(j + 2));
                j += 2;
            } else {
                return false;
            }
        } else {
            assert(v@.skip(j as int).skip(1) =~= v@.skip(j + 1));
            j += 1;
        }
    }
    false
}

/// Reads one token as an atom: `nil`, `true`, `false`, an integer, a string
/// literal, a keyword or a symbol.
pub fn read_atom(reader: &mut Reader) -> (r: BeeRet)
    ensures
        final(reader).tokens == old(reader).tokens,
        (outcome(r), final(reader).pos as nat) == read_atom_at(
            old(reader).token_texts(),
            old(reader).pos as nat,
        ),
{
    let token = match reader.get_token() {
        Ok(t) => t,
        Err(e) => {
            return Err(e);
        },
    };
    reader.step();
    if is_text(&token, "nil") {
        return Ok(BeeVal::Nil);
    }
    if is_text(&token, "false") {
        return Ok(BeeVal::Bool(false));
    }
    if is_text(&token, "true") {
        return Ok(BeeVal::Bool(true));
    }
    let v = chars_of(token.as_str());
    if is_int_token(&v) {
        match parse_int(&v) {
            Some(i) => Ok(BeeVal::Int(i)),
            None => error("Integer out of range"),
        }
    } else if v.len() >= 2 && v[0] == '"' && closes_string(&v, 1) && scan_string(&v, 1)
        == v.len() {
        let body = text_of(&v, 1, v.len() - 1);
        Ok(BeeVal::Str(unescape_str(body.as_str())))
    } else if v.len() > 0 && v[0] == '"' {
        error("Expected '\"', got EOF")
    } else if v.len() > 0 && v[0] == ':' {
        let mut s = String::new();
        s.push(KEYWORD_MARK);
        let name = text_of(&v, 1, v.len());
        s.append(name.as_str());
        Ok(BeeVal::Str(s))
    } else {
        Ok(BeeVal::Sym(token))
    }
}

/// Reads a sequence: consumes the opener at the position, then reads forms
/// until the token `end`, which it consumes.
pub fn read_seq(reader: &mut Reader, end: &str) -> (r: BeeRet)
    requires
        old(reader).pos < old(reader).tokens.len(),
    ensures
        final(reader).tokens == old(reader).tokens,
        (outcome(r), final(reader).pos as nat) == read_seq_spec(
            old(reader).token_texts(),
            (old(reader).pos + 1) as nat,
            end@,
            Seq::empty(),
        ),
    decreases old(reader).tokens.len() - old(reader).pos, 0nat,
{
    let mut seq: Vec<BeeVal> = Vec::new();
    let ghost tokens = reader.token_texts();
    let ghost first = (reader.pos + 1) as nat;
    reader.step();
    assert(models(seq@) =~= Seq::<Val>::empty());
    loop
        invariant
            reader.tokens == old(reader).tokens,
            tokens == old(reader).token_texts(),
            first == old(reader).pos + 1,
            first <= reader.pos <= reader.tokens.len(),
            read_seq_spec(tokens, first, end@, Seq::empty()) == read_seq_spec(
                tokens,
                reader.pos as nat,
                end@,
                models(seq@),
            ),
        ensures
            reader.tokens == old(reader).tokens,
            reader.pos < reader.tokens.len(),
            tokens[reader.pos as int] == end@,
            read_seq_spec(tokens, first, end@, Seq::empty()) == (
                close_seq(end@, models(seq@)),
                (reader.pos + 1) as nat,
            ),
        decreases reader.tokens.len() - reader.pos,
    {
        let token = match reader.get_token() {
            Ok(t) => t,
            Err(_) => {
                let mut msg = String::from_str("Expected '");
                msg.append(end);
                msg.append("', got EOF");
                return Err(BeeErr::ErrString(msg));
            },
        };
        if is_text(&token, end) {
            break ;
        }
        let ghost here = reader.pos as nat;
        let ghost before = models(seq@);
        proof {
            lemma_read_form_advances(tokens, here);
        }
        match read_form(reader) {
            Ok(v) => {
                seq.push(v);
                assert(models(seq@) =~= before.push(v@));
            },
            Err(e) => {
                return Err(e);
            },
        }
    }
    reader.step();
    if is_text_lit(end, ")") {
        Ok(list(seq))
    } else if is_text_lit(end, "]") {
        Ok(vector(seq))
    } else if is_text_lit(end, "}") {
        hash_map(seq)
    } else {
        error("read_seq unknown end value")
    }
}

/// Whether `s` and `lit` are the same text.
pub fn is_text_lit(s: &str, lit: &str) -> (b: bool)
    ensures
        b == (s@ == lit@),
{
    let a = String::from_str(s);
    is_text(&a, lit)
}

/// Reads one form: a quoted form, a sequence, or an atom. A closer that
/// nothing opened is rejected.
pub fn read_form(reader: &mut Reader) -> (r: BeeRet)
    ensures
        final(reader).tokens == old(reader).tokens,
        (outcome(r), final(reader).pos as nat) == read_form_spec(
            old(reader).token_texts(),
            old(reader).pos as nat,
        ),
    decreases old(reader).tokens.len() - old(reader).pos, 1nat,
{
    let token = match reader.get_token() {
        Ok(t) => t,
        Err(e) => {
            return Err(e);
        },
    };
    if is_text(&token, "'") {
        reader.step();
        match read_form(reader) {
            Ok(v) => {
                let mut items: Vec<BeeVal> = Vec::new();
                items.push(BeeVal::Sym(String::from_str("quote")));
                items.push(v);
                assert(models(items@) =~= seq![Val::Sym("quote"@), v@]);
                Ok(list(items))
            },
            Err(e) => Err(e),
        }
    } else if is_text(&token, ")") {
        error("Unexpected ')'")
    } else if is_text(&token, "]") {
        error("Unexpected ']'")
    } else if is_text(&token, "}") {
        error("Unexpected '}'")
    } else if is_text(&token, "(") {
        read_seq(reader, ")")
    } else if is_text(&token, "[") {
        read_seq(reader, "]")
    } else if is_text(&token, "{") {
        read_seq(reader, "}")
    } else {
        read_atom(reader)
    }
}

/// Reads the first form of `text`; what follows it is left unread.
pub fn read_str(text: &str) -> (r: BeeRet)
    requires
        tokenize_spec(text@).len() > 0,
    ensures
        outcome(r) == read_str_spec(text@),
{
    let tokens = tokenize(text);
    let mut reader = Reader { pos: 0, tokens: tokens };
    read_form(&mut reader)
}

} // verus!
