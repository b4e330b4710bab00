//! Numbers written out in decimal and hexadecimal digits.
use vstd::prelude::*;

verus! {

/// Whether a character is a decimal digit.
pub open spec fn is_dec_digit(c: char) -> bool {
    '0' <= c && c <= '9'
}

/// Whether every character is a decimal digit.
pub open spec fn all_dec_digits(s: Seq<char>) -> bool {
    forall|i: int| 0 <= i < s.len() ==> is_dec_digit(#[trigger] s[i])
}

/// The number that the first `n` decimal digits of `s` stand for.
pub open spec fn dec_prefix_value(s: Seq<char>, n: nat) -> nat
    decreases n,
{
    if n == 0 {
        0
    } else {
        (dec_prefix_value(s, (n - 1) as nat) * 10 + (s[n - 1] as int - '0' as int)) as nat
    }
}

/// The number that a string of decimal digits stands for.
pub open spec fn dec_value(s: Seq<char>) -> nat {
    dec_prefix_value(s, s.len())
}

/// A number below ten as a decimal digit.
pub open spec fn dec_digit(d: nat) -> char {
    ('0' as int + d) as char
}

/// A number in decimal digits, without leading zeros.
pub open spec fn decimal(n: nat) -> Seq<char>
    decreases n,
{
    if n < 10 {
        seq![dec_digit(n)]
    } else {
        decimal(n / 10).push(dec_digit(n % 10))
    }
}

/// The digits that stand before position `n` alone make up the value.
proof fn lemma_dec_prefix_agrees(s: Seq<char>, t: Seq<char>, n: nat)
    requires
        n <= s.len(),
        n <= t.len(),
        forall|i: int| 0 <= i < n ==> s[i] == t[i],
    ensures
        dec_prefix_value(s, n) == dec_prefix_value(t, n),
    decreases n,
{
    if n > 0 {
        lemma_dec_prefix_agrees(s, t, (n - 1) as nat);
    }
}

/// Writing a number in decimal and reading it back gives the number.
pub proof fn lemma_decimal_reads_back(n: nat)
    ensures
        decimal(n).len() > 0,
        all_dec_digits(decimal(n)),
        dec_value(decimal(n)) == n,
    decreases n,
{
    reveal_with_fuel(dec_prefix_value, 2);
    if n >= 10 {
        lemma_decimal_reads_back(n / 10);
        let high = decimal(n / 10);
        let s = decimal(n);
        lemma_dec_prefix_agrees(s, high, high.len());
        assert(s.len() == high.len() + 1);
        assert(s[s.len() - 1] == dec_digit(n % 10));
        assert forall|i: int| 0 <= i < s.len() implies is_dec_digit(#[trigger] s[i]) by {
            if i < high.len() {
                assert(s[i] == high[i]);
            }
        }
    }
}

/// Whether a character is a hexadecimal digit, in either case.
pub open spec fn is_hex_digit(c: char) -> bool {
    ||| '0' <= c && c <= '9'
    ||| 'a' <= c && c <= 'f'
    ||| 'A' <= c && c <= 'F'
}

/// The number that a hexadecimal digit stands for.
pub open spec fn hex_digit_value(c: char) -> nat {
    if '0' <= c && c <= '9' {
        (c as int - '0' as int) as nat
    } else if 'a' <= c && c <= 'f' {
        (c as int - 'a' as int + 10) as nat
    } else {
        (c as int - 'A' as int + 10) as nat
    }
}

/// Whether every character is a hexadecimal digit.
pub open spec fn all_hex_digits(s: Seq<char>) -> bool {
    forall|i: int| 0 <= i < s.len() ==> is_hex_digit(#[trigger] s[i])
}

/// The number that the first `n` hexadecimal digits of `s` stand for.
pub open spec fn hex_prefix_value(s: Seq<char>, n: nat) -> nat
    decreases n,
{
    if n == 0 {
        0
    } else {
        hex_prefix_value(s, (n - 1) as nat) * 16 + hex_digit_value(s[n - 1])
    }
}

/// The number that a string of hexadecimal digits stands for.
pub open spec fn hex_value(s: Seq<char>) -> nat {
    hex_prefix_value(s, s.len())
}

/// The text behind a leading `0x`, or the whole text where there is none.
pub open spec fn without_0x(s: Seq<char>) -> Seq<char> {
    if s.len() >= 2 && s[0] == '0' && s[1] == 'x' {
        s.skip(2)
    } else {
        s
    }
}

} // verus!
