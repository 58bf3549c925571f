//! Integers as decimal text: what text an integer has, which text is an
//! integer, and the value that it stands for.

use vstd::prelude::*;
use crate::text::{digit_char, is_digit};

verus! {

/// The character of the digit `d`.
pub open spec fn digit_of(d: int) -> char {
    ((48 + d) as u8) as char
}

/// The digit that the character `c` stands for.
pub open spec fn digit_value(c: char) -> int {
    (c as u32) as int - 48
}

/// The decimal text of `n`, without leading zeros.
pub open spec fn nat_text(n: nat) -> Seq<char>
    decreases n,
{
    if n < 10 {
        seq![digit_of(n as int)]
    } else {
        nat_text(n / 10).push(digit_of((n % 10) as int))
    }
}

/// The decimal text of `i`: a minus sign if `i` is negative, then the digits.
pub open spec fn int_text(i: int) -> Seq<char> {
    if i < 0 {
        seq!['-'] + nat_text((-i) as nat)
    } else {
        nat_text(i as nat)
    }
}

pub open spec fn all_digits(s: Seq<char>) -> bool {
    forall|i: int| 0 <= i < s.len() ==> is_digit(#[trigger] s[i])
}

/// The number that the digits `s` spell.
pub open spec fn digits_value(s: Seq<char>) -> nat
    decreases s.len(),
{
    if s.len() == 0 {
        0
    } else {
        (digits_value(s.drop_last()) * 10 + digit_value(s.last())) as nat
    }
}

/// Whether `s` is an optional minus sign followed by one digit or more.
pub open spec fn is_int_text(s: Seq<char>) -> bool {
    if s.len() > 0 && s[0] == '-' {
        s.len() > 1 && all_digits(s.skip(1))
    } else {
        s.len() > 0 && all_digits(s)
    }
}

/// The integer that the text `s` spells.
pub open spec fn int_value(s: Seq<char>) -> int {
    if s.len() > 0 && s[0] == '-' {
        -(digits_value(s.skip(1)) as int)
    } else {
        digits_value(s) as int
    }
}

/// The digits of a number spell that number.
pub proof fn lemma_nat_text_value(n: nat)
    ensures
        nat_text(n).len() > 0,
        all_digits(nat_text(n)),
        digits_value(nat_text(n)) == n,
    decreases n,
{
    if n < 10 {
        let s = nat_text(n);
        assert(digits_value(s.drop_last()) == 0);
    } else {
        lemma_nat_text_value(n / 10);
        let p = nat_text(n / 10);
        let s = nat_text(n);
        assert(s.drop_last() =~= p);
    }
}

/// Reading the decimal text of an integer gives the integer back.
pub proof fn lemma_int_text_round_trip(i: int)
    ensures
        is_int_text(int_text(i)),
        int_value(int_text(i)) == i,
{
    if i < 0 {
        lemma_nat_text_value((-i) as nat);
        assert(int_text(i).skip(1) =~= nat_text((-i) as nat));
    } else {
        lemma_nat_text_value(i as nat);
    }
}

/// More digits never spell a smaller number.
pub proof fn lemma_digits_value_grows(s: Seq<char>, k: int)
    requires
        0 <= k <= s.len(),
        all_digits(s),
    ensures
        digits_value(s.take(k)) <= digits_value(s),
    decreases s.len(),
{
    if k == s.len() {
        assert(s.take(k) =~= s);
    } else {
        let p = s.drop_last();
        assert(p.take(k) =~= s.take(k));
        assert(all_digits(p));
        lemma_digits_value_grows(p, k);
    }
}

/// Appends the decimal digits of `n` to `s`.
pub fn push_nat(s: &mut String, n: u64)
    ensures
        final(s)@ == old(s)@ + nat_text(n as nat),
    decreases n,
{
    if n >= 10 {
        push_nat(s, n / 10);
    }
    let d: u8 = (n % 10) as u8;
    s.push((48 + d) as char);
}

/// The decimal text of `i`.
pub fn int_to_text(i: i64) -> (s: String)
    ensures
        s@ == int_text(i as int),
{
    let mut s = String::new();
    if i < 0 {
        s.push('-');
        let n: u64 = (-(i as i128)) as u64;
        push_nat(&mut s, n);
    } else {
        push_nat(&mut s, i as u64);
    }
    s
}

/// Whether `t` is an optional minus sign followed by one digit or more.
pub fn is_int_token(t: &Vec<char>) -> (b: bool)
    ensures
        b == is_int_text(t@),
{
    let start: usize = if t.len() > 0 && t[0] == '-' { 1 } else { 0 };
    if t.len() <= start {
        return false;
    }
    let ghost digs = t@.skip(start as int);
    let mut i: usize = start;
    while i < t.len()
        invariant
            start <= i <= t.len(),
            digs == t@.skip(start as int),
            start == 1 <==> (t.len() > 0 && t[0] == '-'),
            start == 0 || start == 1,
            forall|j: int| 0 <= j < i - start ==> is_digit(#[trigger] digs[j]),
        decreases t.len() - i,
    {
        if !digit_char(t[i]) {
            assert(digs[i - start] == t@[i as int]);
            return false;
        }
        i += 1;
    }
    assert(start == 0 ==> digs =~= t@);
    true
}

/// The integer that `t` spells, or `None` where it does not fit in 64 bits.
pub fn parse_int(t: &Vec<char>) -> (r: Option<i64>)
    requires
        is_int_text(t@),
    ensures
        match r {
            Some(v) => v == int_value(t@),
            None => !(i64::MIN <= int_value(t@) <= i64::MAX),
        },
{
    let negative: bool = t[0] == '-';
    let start: usize = if negative { 1 } else { 0 };
    let limit: u64 = if negative { 0x8000_0000_0000_0000 } else { 0x7fff_ffff_ffff_ffff };
    let ghost digs = t@.skip(start as int);
    let mut acc: u64 = 0;
    let mut i: usize = start;
    while i < t.len()
        invariant
            start <= i <= t.len(),
            digs == t@.skip(start as int),
            all_digits(digs),
            acc == digits_value(digs.take(i - start)),
            acc <= limit,
            negative == (t[0] == '-'),
            !negative ==> digs == t@,
            start == (if negative { 1usize } else { 0usize }),
            limit == (if negative { 0x8000_0000_0000_0000u64 } else { 0x7fff_ffff_ffff_ffffu64 }),
        decreases t.len() - i,
    {
        let c = t[i];
        let d: u64 = (c as u32 - 48) as u64;
        proof {
            let next = digs.take(i - start + 1);
            assert(next.drop_last() =~= digs.take(i - start));
            lemma_digits_value_grows(digs, i - start + 1);
        }
        if acc > (limit - d) / 10 {
            return None;
        }
        acc = acc * 10 + d;
        i += 1;
    }
    assert(digs.take(digs.len() as int) =~= digs);
    if negative {
        if acc == 0x8000_0000_0000_0000 {
            Some(i64::MIN)
        } else {
            Some(-(acc as i64))
        }
    } else {
        Some(acc as i64)
    }
}

} // verus!
