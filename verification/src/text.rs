//! Characters and strings: the character classes of the lexical grammar and
//! the few conversions between `&str`, `String` and `Vec<char>`.

use vstd::prelude::*;

verus! {

/// `String::push` of the standard library appends one character to the end
/// of the string and leaves the characters before it as they were.
pub assume_specification[ String::push ](s: &mut String, c: char)
    ensures
        final(s)@ == old(s)@.push(c),
;

/// The characters with the Unicode property White_Space.
pub open spec fn is_space(c: char) -> bool {
    let n = c as u32;
    ||| 0x09 <= n <= 0x0D
    ||| n == 0x20
    ||| n == 0x85
    ||| n == 0xA0
    ||| n == 0x1680
    ||| 0x2000 <= n <= 0x200A
    ||| n == 0x2028
    ||| n == 0x2029
    ||| n == 0x202F
    ||| n == 0x205F
    ||| n == 0x3000
}

/// What separates tokens without being one: white space and the comma.
pub open spec fn is_blank(c: char) -> bool {
    is_space(c) || c == ','
}

/// The characters that are a token by themselves.
pub open spec fn is_special(c: char) -> bool {
    ||| c == '['
    ||| c == ']'
    ||| c == '{'
    ||| c == '}'
    ||| c == '('
    ||| c == ')'
    ||| c == '\''
    ||| c == '`'
    ||| c == '~'
    ||| c == '^'
    ||| c == '@'
}

/// The characters that may stand in a bare atom: all but white space, the
/// characters that are a token by themselves, the double quote, the comma
/// and the semicolon.
pub open spec fn is_atom_char(c: char) -> bool {
    &&& !is_space(c)
    &&& !is_special(c)
    &&& c != '"'
    &&& c != ','
    &&& c != ';'
}

/// The ten decimal digits.
pub open spec fn is_digit(c: char) -> bool {
    0x30 <= c as u32 <= 0x39
}

/// Whether `c` is white space.
pub fn space_char(c: char) -> (b: bool)
    ensures
        b == is_space(c),
{
    let n: u32 = c as u32;
    if n < 0x80 {
        (0x09 <= n && n <= 0x0D) || n == 0x20
    } else if n < 0x2000 {
        n == 0x85 || n == 0xA0 || n == 0x1680
    } else {
        n <= 0x200A || n == 0x2028 || n == 0x2029 || n == 0x202F || n == 0x205F || n == 0x3000
    }
}

/// Whether `c` separates tokens without being one.
pub fn blank_char(c: char) -> (b: bool)
    ensures
        b == is_blank(c),
{
    space_char(c) || c == ','
}

/// Whether `c` is a token by itself.
pub fn special_char(c: char) -> (b: bool)
    ensures
        b == is_special(c),
{
    match c {
        '[' | ']' | '{' | '}' | '(' | ')' | '\'' | '`' | '~' | '^' | '@' => true,
        _ => false,
    }
}

/// Whether `c` may stand in a bare atom.
pub fn atom_char(c: char) -> (b: bool)
    ensures
        b == is_atom_char(c),
{
    match c {
        '"' | ',' | ';' => false,
        _ => !space_char(c) && !special_char(c),
    }
}

/// Whether `c` is a decimal digit.
pub fn digit_char(c: char) -> (b: bool)
    ensures
        b == is_digit(c),
{
    let n: u32 = c as u32;
    0x30 <= n && n <= 0x39
}

/// The characters of `s`, in order.
pub fn chars_of(s: &str) -> (v: Vec<char>)
    ensures
        v@ == s@,
{
    let mut v: Vec<char> = Vec::new();
    for c in it: s.chars()
        invariant
            v@ == it.seq().take(it.index() as int),
            it.seq() == s@,
    {
        v.push(c);
    }
    v
}

/// The string made of the characters `v[from..to]`.
pub fn text_of(v: &Vec<char>, from: usize, to: usize) -> (s: String)
    requires
        from <= to <= v.len(),
    ensures
        s@ == v@.subrange(from as int, to as int),
{
    let mut s = String::new();
    let mut i: usize = from;
    while i < to
        invariant
            from <= i <= to <= v.len(),
            s@ == v@.subrange(from as int, i as int),
        decreases to - i,
    {
        s.push(v[i]);
        i += 1;
    }
    s
}

} // verus!
