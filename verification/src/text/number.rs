//! Whole numbers written in decimal, and read back.

use vstd::prelude::*;
use crate::text::chars::{is_digit, to_chars};

verus! {

/// The digit that stands for `d`.
pub open spec fn digit(d: int) -> char {
    if d == 0 {
        '0'
    } else if d == 1 {
        '1'
    } else if d == 2 {
        '2'
    } else if d == 3 {
        '3'
    } else if d == 4 {
        '4'
    } else if d == 5 {
        '5'
    } else if d == 6 {
        '6'
    } else if d == 7 {
        '7'
    } else if d == 8 {
        '8'
    } else {
        '9'
    }
}

/// `n` in decimal, without leading zeros.
pub open spec fn decimal(n: nat) -> Seq<char>
    decreases n,
{
    if n < 10 {
        seq![digit(n as int)]
    } else {
        decimal(n / 10).push(digit((n % 10) as int))
    }
}

/// `n` in decimal, with a sign where it is negative.
pub open spec fn signed_decimal(n: int) -> Seq<char> {
    if n < 0 {
        seq!['-'] + decimal((-n) as nat)
    } else {
        decimal(n as nat)
    }
}

/// What a digit stands for.
pub open spec fn digit_value(c: char) -> nat {
    if '0' <= c <= '9' {
        (c as u32 - '0' as u32) as nat
    } else {
        0
    }
}

/// The number that a row of digits stands for.
pub open spec fn number_value(s: Seq<char>) -> nat
    decreases s.len(),
{
    if s.len() == 0 {
        0
    } else {
        number_value(s.drop_last()) * 10 + digit_value(s.last())
    }
}

/// How many digits stand at the front of `s`.
pub open spec fn digit_count(s: Seq<char>) -> int
    decreases s.len(),
{
    if s.len() > 0 && is_digit(s[0]) {
        1 + digit_count(s.skip(1))
    } else {
        0
    }
}

/// The number that `s` begins with, where it begins with one and that is at most `max`.
pub open spec fn leading_number(s: Seq<char>, max: nat) -> Option<nat> {
    let n = digit_count(s);
    let value = number_value(s.take(n));
    if n > 0 && value <= max {
        Some(value)
    } else {
        None
    }
}

/// The digits counted are digits, and no digit follows them.
pub proof fn digit_count_meaning(s: Seq<char>)
    ensures
        0 <= digit_count(s) <= s.len(),
        forall|j: int| 0 <= j < digit_count(s) ==> is_digit(s[j]),
        digit_count(s) < s.len() ==> !is_digit(s[digit_count(s)]),
    decreases s.len(),
{
    if s.len() > 0 && is_digit(s[0]) {
        digit_count_meaning(s.skip(1));
        assert forall|j: int| 0 <= j < digit_count(s) implies is_digit(s[j]) by {
            if j > 0 {
                assert(s.skip(1)[j - 1] == s[j]);
            }
        }
    }
}

proof fn number_value_grows(s: Seq<char>, k: int)
    requires
        0 <= k <= s.len(),
    ensures
        number_value(s.take(k)) <= number_value(s),
    decreases s.len(),
{
    if k < s.len() {
        number_value_grows(s.drop_last(), k);
        assert(s.drop_last().take(k) =~= s.take(k));
    } else {
        assert(s.take(k) =~= s);
    }
}

/// Reading back what was written gives the number again.
pub proof fn decimal_reads_back(n: nat)
    ensures
        number_value(decimal(n)) == n,
        decimal(n).len() > 0,
        forall|i: int| 0 <= i < decimal(n).len() ==> is_digit(#[trigger] decimal(n)[i]),
    decreases n,
{
    if n < 10 {
        assert(decimal(n).drop_last() =~= Seq::empty());
        assert(number_value(decimal(n).drop_last()) == 0);
        assert(decimal(n).last() == digit(n as int));
    } else {
        decimal_reads_back(n / 10);
        assert(decimal(n).drop_last() =~= decimal(n / 10));
        assert(decimal(n).last() == digit((n % 10) as int));
    }
}

/// Two numbers that are written alike are the same.
pub proof fn decimal_injective(a: nat, b: nat)
    requires
        decimal(a) == decimal(b),
    ensures
        a == b,
{
    decimal_reads_back(a);
    decimal_reads_back(b);
}

fn digit_char(d: u128) -> (c: char)
    requires
        d < 10,
    ensures
        c == digit(d as int),
{
    if d == 0 {
        '0'
    } else if d == 1 {
        '1'
    } else if d == 2 {
        '2'
    } else if d == 3 {
        '3'
    } else if d == 4 {
        '4'
    } else if d == 5 {
        '5'
    } else if d == 6 {
        '6'
    } else if d == 7 {
        '7'
    } else if d == 8 {
        '8'
    } else {
        '9'
    }
}

/// `n` in decimal.
pub fn show_wide(n: u128) -> (r: String)
    ensures
        r@ == decimal(n as nat),
    decreases n,
{
    if n < 10 {
        let mut s = String::new();
        s.push(digit_char(n));
        assert(s@ =~= seq![digit(n as int)]);
        s
    } else {
        let mut s = show_wide(n / 10);
        s.push(digit_char(n % 10));
        s
    }
}

/// `n` in decimal.
pub fn show(n: u64) -> (r: String)
    ensures
        r@ == decimal(n as nat),
{
    show_wide(n as u128)
}

/// `n` in decimal.
pub fn show_usize(n: usize) -> (r: String)
    ensures
        r@ == decimal(n as nat),
{
    show(n as u64)
}

/// `n` in decimal, with its sign.
pub fn show_signed(n: i64) -> (r: String)
    ensures
        r@ == signed_decimal(n as int),
{
    if n >= 0 {
        return show(n as u64);
    }
    let mut s = String::new();
    s.push('-');
    let size: u64 = (-(n as i128)) as u64;
    let digits = show(size);
    let mut i: usize = 0;
    let cs = to_chars(digits.as_str());
    proof {
        assert(s@ =~= seq!['-'] + cs@.take(0));
    }
    while i < cs.len()
        invariant
            i <= cs@.len(),
            s@ == seq!['-'] + cs@.take(i as int),
        decreases cs@.len() - i,
    {
        s.push(cs[i]);
        proof {
            assert(s@ =~= seq!['-'] + cs@.take(i + 1));
        }
        i += 1;
    }
    proof {
        assert(cs@.take(i as int) =~= cs@);
    }
    s
}

/// The number that `s` begins with, where it begins with one and that is at most `max`.
pub fn read_leading(s: &str, max: u64) -> (r: Option<u64>)
    ensures
        match r {
            Some(n) => leading_number(s@, max as nat) == Some(n as nat),
            None => leading_number(s@, max as nat) is None,
        },
{
    let cs = to_chars(s);
    let mut i: usize = 0;
    let mut value: u64 = 0;
    proof {
        digit_count_meaning(s@);
        assert(s@.take(0) =~= Seq::empty());
    }
    let ghost count = digit_count(s@);
    while i < cs.len() && '0' <= cs[i] && cs[i] <= '9'
        invariant
            cs@ == s@,
            count == digit_count(s@),
            0 <= count <= s@.len(),
            forall|j: int| 0 <= j < count ==> is_digit(s@[j]),
            count < s@.len() ==> !is_digit(s@[count]),
            i <= count,
            value == number_value(s@.take(i as int)),
            value <= max,
        decreases cs@.len() - i,
    {
        let d: u64 = (cs[i] as u32 - '0' as u32) as u64;
        proof {
            assert(i < count);
            assert(s@.take(i + 1).drop_last() =~= s@.take(i as int));
            assert(number_value(s@.take(i + 1)) == value * 10 + d);
            number_value_grows(s@.take(count), i + 1);
            assert(s@.take(count).take(i + 1) =~= s@.take(i + 1));
        }
        if d > max || value > (max - d) / 10 {
            return None;
        }
        value = value * 10 + d;
        i += 1;
    }
    if i == 0 {
        None
    } else {
        Some(value)
    }
}

} // verus!
