//! Whole numbers as decimal text.
use vstd::prelude::*;

use crate::text::chars_of;

verus! {

/// The character for one decimal digit.
pub open spec fn digit(d: nat) -> char {
    (48 + d) as char
}

/// Whether `c` is an ASCII decimal digit.
pub open spec fn is_digit(c: char) -> bool {
    '0' <= c && c <= '9'
}

/// The number that one digit stands for.
pub open spec fn digit_value(c: char) -> nat {
    ((c as u32) - 48) as nat
}

/// `n` in decimal, without leading zeros.
pub open spec fn decimal(n: nat) -> Seq<char>
    decreases n,
{
    if n < 10 {
        seq![digit(n)]
    } else {
        decimal(n / 10).push(digit(n % 10))
    }
}

/// `i` in decimal, with a minus sign where it is negative.
pub open spec fn decimal_int(i: int) -> Seq<char> {
    if i < 0 {
        seq!['-'] + decimal((-i) as nat)
    } else {
        decimal(i as nat)
    }
}

/// Every character of `s` is a decimal digit.
pub open spec fn all_digits(s: Seq<char>) -> bool {
    forall|i: int| 0 <= i < s.len() ==> is_digit(#[trigger] s[i])
}

/// The number that the digits of `s` stand for.
pub open spec fn digits_value(s: Seq<char>) -> nat
    decreases s.len(),
{
    if s.len() == 0 {
        0
    } else {
        digits_value(s.drop_last()) * 10 + digit_value(s.last())
    }
}

/// The number that `s` writes: digits, at least one, and no more than `max`.
pub open spec fn parse_digits(s: Seq<char>, max: nat) -> Option<nat> {
    if s.len() > 0 && all_digits(s) && digits_value(s) <= max {
        Some(digits_value(s))
    } else {
        None
    }
}

/// The unsigned number that `s` writes: digits, with or without a plus sign before them.
pub open spec fn parse_unsigned(s: Seq<char>, max: nat) -> Option<nat> {
    if s.len() > 0 && s[0] == '+' {
        parse_digits(s.drop_first(), max)
    } else {
        parse_digits(s, max)
    }
}

proof fn lemma_digit_value(d: nat)
    requires
        d < 10,
    ensures
        is_digit(digit(d)),
        digit_value(digit(d)) == d,
{
}

/// Reading what was written gives back the number.
pub proof fn lemma_decimal_round_trip(n: nat)
    ensures
        decimal(n).len() > 0,
        all_digits(decimal(n)),
        digits_value(decimal(n)) == n,
    decreases n,
{
    reveal_with_fuel(digits_value, 2);
    if n < 10 {
        lemma_digit_value(n);
        assert(decimal(n).drop_last() =~= Seq::<char>::empty());
    } else {
        lemma_decimal_round_trip(n / 10);
        lemma_digit_value(n % 10);
        assert(decimal(n).drop_last() =~= decimal(n / 10));
        assert(decimal(n).last() == digit(n % 10));
        assert forall|i: int| 0 <= i < decimal(n).len() implies is_digit(#[trigger] decimal(n)[i]) by {
            if i < decimal(n / 10).len() {
                assert(decimal(n)[i] == decimal(n / 10)[i]);
            }
        }
    }
}

/// A number that is written within the bound is read back as itself.
pub proof fn lemma_parse_decimal(n: nat, max: nat)
    requires
        n <= max,
    ensures
        parse_unsigned(decimal(n), max) == Some(n),
{
    lemma_decimal_round_trip(n);
    assert(is_digit(decimal(n)[0]));
}

/// The digits that follow only make the number larger.
proof fn lemma_prefix_value(s: Seq<char>, k: int)
    requires
        0 <= k <= s.len(),
        all_digits(s),
    ensures
        digits_value(s.take(k)) <= digits_value(s),
    decreases s.len() - k,
{
    if k == s.len() {
        assert(s.take(k) =~= s);
    } else {
        lemma_prefix_value(s, k + 1);
        assert(s.take(k + 1).drop_last() =~= s.take(k));
    }
}

fn push_decimal(text: &mut String, n: u64)
    ensures
        final(text)@ == old(text)@ + decimal(n as nat),
    decreases n,
{
    if n >= 10 {
        push_decimal(text, n / 10);
    }
    let ghost before = text@;
    text.push(((n % 10) as u8 + 48) as char);
    proof {
        assert(text@ == before.push(digit((n % 10) as nat)));
        assert(text@ =~= old(text)@ + decimal(n as nat));
    }
}

/// `n` in decimal.
pub fn decimal_text(n: u64) -> (text: String)
    ensures
        text@ == decimal(n as nat),
{
    let mut text = String::new();
    push_decimal(&mut text, n);
    assert(text@ =~= decimal(n as nat));
    text
}

/// The number that the characters `chars[from..to]` write in digits, up to `max`.
pub fn read_digits(chars: &Vec<char>, from: usize, to: usize, max: u64) -> (value: Option<u64>)
    requires
        from <= to <= chars@.len(),
    ensures
        parse_digits(chars@.subrange(from as int, to as int), max as nat) == (match value {
            Some(v) => Some(v as nat),
            None => None,
        }),
{
    let ghost whole = chars@.subrange(from as int, to as int);
    if from == to {
        return None;
    }
    let mut value: u64 = 0;
    let mut i: usize = from;
    while i < to
        invariant
            from <= i <= to <= chars@.len(),
            whole == chars@.subrange(from as int, to as int),
            forall|j: int| 0 <= j < i - from ==> is_digit(#[trigger] whole[j]),
            value == digits_value(whole.take(i - from)),
            value <= max,
        decreases to - i,
    {
        let c = chars[i];
        assert(whole[i - from] == c);
        if !('0' <= c && c <= '9') {
            return None;
        }
        let d: u128 = (c as u32 - 48) as u128;
        let next: u128 = (value as u128) * 10 + d;
        proof {
            assert(whole.take(i - from + 1).drop_last() =~= whole.take(i - from));
            assert(next == digits_value(whole.take(i - from + 1)));
        }
        if next > max as u128 {
            proof {
                if all_digits(whole) {
                    lemma_prefix_value(whole, i - from + 1);
                }
            }
            return None;
        }
        value = next as u64;
        i = i + 1;
    }
    assert(whole.take(i - from) =~= whole);
    Some(value)
}

/// The unsigned number that `chars[from..to]` writes, up to `max`.
pub fn read_unsigned(chars: &Vec<char>, from: usize, to: usize, max: u64) -> (value: Option<u64>)
    requires
        from <= to <= chars@.len(),
    ensures
        parse_unsigned(chars@.subrange(from as int, to as int), max as nat) == (match value {
            Some(v) => Some(v as nat),
            None => None,
        }),
{
    if from < to && chars[from] == '+' {
        assert(chars@.subrange(from as int, to as int).drop_first() =~= chars@.subrange(
            from + 1,
            to as int,
        ));
        read_digits(chars, from + 1, to, max)
    } else {
        read_digits(chars, from, to, max)
    }
}

/// The unsigned number that `text` writes, up to `max`.
pub fn unsigned_of(text: &str, max: u64) -> (value: Option<u64>)
    ensures
        parse_unsigned(text@, max as nat) == (match value {
            Some(v) => Some(v as nat),
            None => None,
        }),
{
    let chars = chars_of(text);
    assert(chars@.subrange(0, chars@.len() as int) =~= chars@);
    read_unsigned(&chars, 0, chars.len(), max)
}

} // verus!
