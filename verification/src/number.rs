//! Decimal numbers: writing and reading back.

use vstd::prelude::*;
use crate::text;
use crate::text::{chars_of, digit, Class, Text};

verus! {

/// The digit `d` as a character.
pub open spec fn digit_char(d: nat) -> char {
    ('0' as u32 + d) as char
}

/// The value of a digit.
pub open spec fn digit_value(c: char) -> nat {
    (c as u32 - '0' as u32) as nat
}

/// A number in decimal, without leading zeros.
pub open spec fn decimal(n: nat) -> Text
    decreases n,
{
    if n < 10 {
        seq![digit_char(n)]
    } else {
        decimal(n / 10).push(digit_char(n % 10))
    }
}

/// The value of a text of decimal digits.
pub open spec fn value(s: Text) -> nat
    decreases s.len(),
{
    if s.len() == 0 {
        0
    } else {
        value(s.drop_last()) * 10 + digit_value(s.last())
    }
}

/// The text without one leading plus sign.
pub open spec fn unsigned_part(s: Text) -> Text {
    if s.len() > 0 && s[0] == '+' {
        s.skip(1)
    } else {
        s
    }
}

/// The number a text stands for: decimal digits, at least one, perhaps after
/// a plus sign, of a value that `u64` holds.
pub open spec fn parsed(s: Text) -> Option<u64> {
    let d = unsigned_part(s);
    if d.len() > 0 && text::all_in(d, Class::Digit) && value(d) <= u64::MAX {
        Some(value(d) as u64)
    } else {
        None
    }
}

/// A number written in decimal reads back as itself.
pub proof fn decimal_reads_back(n: u64)
    ensures
        parsed(decimal(n as nat)) == Some(n),
{
    lemma_decimal(n as nat);
    let d = decimal(n as nat);
    assert(text::is_digit(d[0]));
}

/// A decimal text is all digits, not empty, and has the number's value.
pub proof fn lemma_decimal(n: nat)
    ensures
        decimal(n).len() > 0,
        text::all_in(decimal(n), Class::Digit),
        value(decimal(n)) == n,
    decreases n,
{
    if n < 10 {
        let s = seq![digit_char(n)];
        assert(s.drop_last() =~= Seq::<char>::empty());
        assert(value(s.drop_last()) == 0);
    } else {
        lemma_decimal(n / 10);
        assert(decimal(n).drop_last() =~= decimal(n / 10));
    }
}

proof fn lemma_value_grows(s: Text, i: int)
    requires
        0 <= i <= s.len(),
    ensures
        value(s.take(i)) <= value(s),
    decreases s.len(),
{
    if i < s.len() {
        lemma_value_grows(s.drop_last(), i);
        assert(s.drop_last().take(i) =~= s.take(i));
    } else {
        assert(s.take(i) =~= s);
    }
}

pub fn push_decimal(out: &mut String, n: u64)
    ensures
        final(out)@ == old(out)@ + decimal(n as nat),
    decreases n,
{
    if n >= 10 {
        push_decimal(out, n / 10);
    }
    let d: u8 = (n % 10) as u8;
    out.push((48 + d) as char);
    assert(out@ =~= old(out)@ + decimal(n as nat));
}

pub fn decimal_text(n: u64) -> (r: String)
    ensures
        r@ == decimal(n as nat),
{
    let mut out = String::new();
    push_decimal(&mut out, n);
    assert(out@ =~= decimal(n as nat));
    out
}

pub fn parse_u64(s: &str) -> (r: Option<u64>)
    ensures
        r == parsed(s@),
{
    let v = chars_of(s);
    let start: usize = if v.len() > 0 && v[0] == '+' {
        1
    } else {
        0
    };
    let ghost d = unsigned_part(s@);
    assert(d =~= s@.skip(start as int));
    if start == v.len() {
        return None;
    }
    let mut n: u64 = 0;
    let mut i: usize = start;
    while i < v.len()
        invariant
            start <= i <= v@.len(),
            start < v@.len(),
            d == v@.skip(start as int),
            d == unsigned_part(s@),
            text::all_in(d.take(i - start), Class::Digit),
            n == value(d.take(i - start)),
        decreases v@.len() - i,
    {
        let ghost k = i - start;
        assert(d[k] == v@[i as int]);
        if !digit(v[i]) {
            return None;
        }
        assert(d.take(k + 1).drop_last() =~= d.take(k));
        assert(d.take(k + 1) =~= d.take(k).push(d[k]));
        let x: u64 = v[i] as u64 - 48;
        proof {
            lemma_value_grows(d, k + 1);
        }
        match n.checked_mul(10) {
            Some(m) => match m.checked_add(x) {
                Some(t) => {
                    n = t;
                },
                None => {
                    return None;
                },
            },
            None => {
                return None;
            },
        }
        i = i + 1;
    }
    assert(d.take(i - start) =~= d);
    Some(n)
}

/// A number below a hundred, with two digits.
pub open spec fn two_digits(n: nat) -> Text {
    if n < 10 {
        seq!['0'] + decimal(n)
    } else {
        decimal(n)
    }
}

pub fn two_digit_text(n: u64) -> (r: String)
    ensures
        r@ == two_digits(n as nat),
{
    let mut out = String::new();
    if n < 10 {
        out.push('0');
    }
    push_decimal(&mut out, n);
    assert(out@ =~= two_digits(n as nat));
    out
}

/// The numbers as decimal texts.
pub open spec fn decimals(ns: Seq<u64>) -> Seq<Text> {
    ns.map_values(|n: u64| decimal(n as nat))
}

pub fn decimal_texts(ns: &Vec<u64>) -> (r: Vec<String>)
    ensures
        text::texts(r@) == decimals(ns@),
{
    let mut out: Vec<String> = Vec::new();
    let mut i: usize = 0;
    while i < ns.len()
        invariant
            i <= ns@.len(),
            text::texts(out@) =~= decimals(ns@.take(i as int)),
        decreases ns@.len() - i,
    {
        let item = decimal_text(ns[i]);
        let ghost before = out@;
        out.push(item);
        assert(text::texts(out@) =~= text::texts(before).push(decimal(ns@[i as int] as nat)));
        i = i + 1;
    }
    assert(ns@.take(i as int) =~= ns@);
    out
}

} // verus!
