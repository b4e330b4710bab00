//! 256-bit integers: plain words on the outside, `ethers` arithmetic inside.
use vstd::arithmetic::power::pow;
use vstd::prelude::*;

use crate::digits::{all_dec_digits, all_hex_digits, dec_value, decimal, hex_value, lemma_decimal_reads_back, without_0x};

verus! {

/// Number of values of a 256-bit word.
pub open spec fn two_256() -> nat {
    0x1_0000_0000_0000_0000_0000_0000_0000_0000_0000_0000_0000_0000_0000_0000_0000_0000nat
}

/// Number of non-negative values of a signed 256-bit word.
pub open spec fn two_255() -> nat {
    0x8000_0000_0000_0000_0000_0000_0000_0000_0000_0000_0000_0000_0000_0000_0000_0000nat
}

/// The number that four 64-bit words stand for, the least significant word first.
pub open spec fn words_value(words: [u64; 4]) -> nat {
    (words[0] + words[1] * 0x1_0000_0000_0000_0000int + words[2]
        * 0x1_0000_0000_0000_0000_0000_0000_0000_0000int + words[3]
        * 0x1_0000_0000_0000_0000_0000_0000_0000_0000_0000_0000_0000_0000int) as nat
}

/// Unsigned 256-bit integer, as four words with the least significant one first.
#[derive(Clone, Copy, Debug)]
pub struct U256 {
    pub words: [u64; 4],
}

impl View for U256 {
    type V = nat;

    open spec fn view(&self) -> nat {
        words_value(self.words)
    }
}

/// Four words hold less than 2 to the 256, and the words follow from the number.
pub proof fn lemma_words_value(a: [u64; 4], b: [u64; 4])
    ensures
        words_value(a) < two_256(),
        words_value(a) == words_value(b) <==> a == b,
{
    if words_value(a) == words_value(b) {
        assert(a[0] == b[0] && a[1] == b[1] && a[2] == b[2] && a[3] == b[3]);
        assert(a =~= b);
    }
}

impl PartialEq for U256 {
    fn eq(&self, other: &U256) -> (r: bool) {
        proof {
            lemma_words_value(self.words, other.words);
            assert(self.words =~= other.words <==> (self.words[0] == other.words[0]
                && self.words[1] == other.words[1] && self.words[2] == other.words[2]
                && self.words[3] == other.words[3]));
        }
        self.words[0] == other.words[0] && self.words[1] == other.words[1] && self.words[2]
            == other.words[2] && self.words[3] == other.words[3]
    }
}

impl vstd::std_specs::cmp::PartialEqSpecImpl for U256 {
    open spec fn obeys_eq_spec() -> bool {
        true
    }

    open spec fn eq_spec(&self, other: &U256) -> bool {
        self@ == other@
    }
}

impl Eq for U256 {

}

impl U256 {
    /// Adds with `ethers::types::U256::checked_add`, which is claimed to give the sum if it
    /// is below 2 to the 256, and nothing otherwise.
    #[verifier::external_body]
    pub(crate) fn checked_add(self, other: U256) -> (r: Option<U256>)
        ensures
            r is Some <==> self@ + other@ < two_256(),
            r matches Some(sum) ==> sum@ == self@ + other@,
    {
        let sum = ethers::types::U256(self.words).checked_add(ethers::types::U256(other.words));
        sum.map(|v| U256 { words: v.0 })
    }

    /// Multiplies with `ethers::types::U256::checked_mul`, which is claimed to give the
    /// product if it is below 2 to the 256, and nothing otherwise.
    #[verifier::external_body]
    pub(crate) fn checked_mul(self, other: U256) -> (r: Option<U256>)
        ensures
            r is Some <==> self@ * other@ < two_256(),
            r matches Some(product) ==> product@ == self@ * other@,
    {
        let product = ethers::types::U256(self.words).checked_mul(ethers::types::U256(other.words));
        product.map(|v| U256 { words: v.0 })
    }

    /// Divides with `ethers::types::U256::checked_div`, which is claimed to give the quotient
    /// rounded down, and nothing if the divisor is zero.
    #[verifier::external_body]
    pub(crate) fn checked_div(self, other: U256) -> (r: Option<U256>)
        ensures
            r is Some <==> other@ != 0,
            r matches Some(quotient) ==> quotient@ == self@ / other@,
    {
        let quotient = ethers::types::U256(self.words).checked_div(
            ethers::types::U256(other.words),
        );
        quotient.map(|v| U256 { words: v.0 })
    }

    /// Raises to a power with `ethers::types::U256::checked_pow`, which is claimed to give the
    /// power if it is below 2 to the 256, and nothing otherwise.
    #[verifier::external_body]
    pub(crate) fn checked_pow(self, exponent: U256) -> (r: Option<U256>)
        ensures
            r is Some <==> pow(self@ as int, exponent@) < two_256(),
            r matches Some(power) ==> power@ == pow(self@ as int, exponent@),
    {
        let power = ethers::types::U256(self.words).checked_pow(ethers::types::U256(exponent.words));
        power.map(|v| U256 { words: v.0 })
    }

    /// Reads a number with `From<&'static str>` of `ethers::types::U256`, which is claimed to
    /// take at most 64 hexadecimal digits, behind `0x` or not, for the number that they stand
    /// for. It panics on any other text.
    #[verifier::external_body]
    pub(crate) fn from_hex_text(text: &'static str) -> (r: U256)
        requires
            all_hex_digits(without_0x(text@)),
            without_0x(text@).len() <= 64,
        ensures
            r@ == hex_value(without_0x(text@)),
    {
        U256 { words: ethers::types::U256::from(text).0 }
    }

    /// Writes a number with `Display` of `ethers::types::U256`, which is claimed to give its
    /// decimal digits without leading zeros.
    #[verifier::external_body]
    pub(crate) fn to_decimal(self) -> (r: String)
        ensures
            r@ == decimal(self@),
    {
        ethers::types::U256(self.words).to_string()
    }

    pub fn from_u64(value: u64) -> (r: U256)
        ensures
            r@ == value,
    {
        U256 { words: [value, 0, 0, 0] }
    }

    /// The least significant word.
    pub fn low_u64(&self) -> (r: u64)
        ensures
            r == self@ % 0x1_0000_0000_0000_0000,
    {
        self.words[0]
    }

    pub fn less_than(&self, other: &U256) -> (r: bool)
        ensures
            r == (self@ < other@),
    {
        if self.words[3] != other.words[3] {
            self.words[3] < other.words[3]
        } else if self.words[2] != other.words[2] {
            self.words[2] < other.words[2]
        } else if self.words[1] != other.words[1] {
            self.words[1] < other.words[1]
        } else {
            self.words[0] < other.words[0]
        }
    }

    pub fn add(self, other: U256) -> (r: U256)
        requires
            self@ + other@ < two_256(),
        ensures
            r@ == self@ + other@,
    {
        self.checked_add(other).unwrap()
    }

    pub fn mul(self, other: U256) -> (r: U256)
        requires
            self@ * other@ < two_256(),
        ensures
            r@ == self@ * other@,
    {
        self.checked_mul(other).unwrap()
    }

    pub fn div(self, other: U256) -> (r: U256)
        requires
            other@ != 0,
        ensures
            r@ == self@ / other@,
    {
        self.checked_div(other).unwrap()
    }

    pub fn pow(self, exponent: U256) -> (r: U256)
        requires
            pow(self@ as int, exponent@) < two_256(),
        ensures
            r@ == pow(self@ as int, exponent@),
    {
        self.checked_pow(exponent).unwrap()
    }
}

/// Signed 256-bit integer in two's complement, as four words with the least significant one
/// first.
#[derive(Clone, Copy, Debug)]
pub struct I256 {
    pub words: [u64; 4],
}

impl View for I256 {
    type V = int;

    open spec fn view(&self) -> int {
        if words_value(self.words) < two_255() {
            words_value(self.words) as int
        } else {
            words_value(self.words) - two_256()
        }
    }
}

impl PartialEq for I256 {
    fn eq(&self, other: &I256) -> (r: bool) {
        proof {
            lemma_words_value(self.words, other.words);
            lemma_words_value(other.words, self.words);
        }
        U256 { words: self.words } == U256 { words: other.words }
    }
}

impl vstd::std_specs::cmp::PartialEqSpecImpl for I256 {
    open spec fn obeys_eq_spec() -> bool {
        true
    }

    open spec fn eq_spec(&self, other: &I256) -> bool {
        self@ == other@
    }
}

impl Eq for I256 {

}

/// The quotient of two integers rounded toward zero.
pub open spec fn truncated_quotient(a: int, b: int) -> int {
    let magnitude = (if a < 0 { -a } else { a }) / (if b < 0 { -b } else { b });
    if (a < 0) == (b < 0) {
        magnitude
    } else {
        -magnitude
    }
}

/// The signed number that a decimal text stands for, where a 256-bit word holds it. A sign may
/// stand in front; no digits at all stand for zero, and a negative zero is no number.
pub open spec fn signed_decimal_value(s: Seq<char>) -> Option<int> {
    if s.len() > 0 && s[0] == '-' {
        let digits = s.skip(1);
        if all_dec_digits(digits) && 0 < dec_value(digits) <= two_255() {
            Some(-(dec_value(digits) as int))
        } else {
            None
        }
    } else {
        let digits = if s.len() > 0 && s[0] == '+' {
            s.skip(1)
        } else {
            s
        };
        if all_dec_digits(digits) && dec_value(digits) < two_255() {
            Some(dec_value(digits) as int)
        } else {
            None
        }
    }
}

/// The error of `ethers` for a text that is no signed 256-bit number.
#[verifier::external_type_specification]
#[verifier::external_body]
pub struct ExParseI256Error(ethers::types::ParseI256Error);

impl I256 {
    /// Multiplies with `ethers::types::I256::checked_mul`, which is claimed to give the product
    /// if a signed word holds it, and nothing otherwise.
    #[verifier::external_body]
    pub(crate) fn checked_mul(self, other: I256) -> (r: Option<I256>)
        ensures
            r is Some <==> (-two_255() <= self@ * other@ && self@ * other@ < two_255()),
            r matches Some(product) ==> product@ == self@ * other@,
    {
        let a = ethers::types::I256::from_raw(ethers::types::U256(self.words));
        let b = ethers::types::I256::from_raw(ethers::types::U256(other.words));
        a.checked_mul(b).map(|v| I256 { words: v.into_raw().0 })
    }

    /// Divides with `ethers::types::I256::checked_div`, which is claimed to give the quotient
    /// rounded toward zero, and nothing if the divisor is zero or the quotient leaves the word.
    #[verifier::external_body]
    pub(crate) fn checked_div(self, other: I256) -> (r: Option<I256>)
        ensures
            r is Some <==> (other@ != 0 && !(self@ == -two_255() && other@ == -1)),
            r matches Some(quotient) ==> quotient@ == truncated_quotient(self@, other@),
    {
        let a = ethers::types::I256::from_raw(ethers::types::U256(self.words));
        let b = ethers::types::I256::from_raw(ethers::types::U256(other.words));
        a.checked_div(b).map(|v| I256 { words: v.into_raw().0 })
    }

    /// Reads a number with `ethers::types::I256::from_dec_str`, which is claimed to take the
    /// decimal texts of [`signed_decimal_value`] for their numbers and to refuse all others.
    #[verifier::external_body]
    pub(crate) fn from_decimal(text: &str) -> (r: Result<I256, ethers::types::ParseI256Error>)
        ensures
            r is Ok <==> signed_decimal_value(text@) is Some,
            r matches Ok(v) ==> signed_decimal_value(text@) == Some(v@),
    {
        ethers::types::I256::from_dec_str(text).map(|v| I256 { words: v.into_raw().0 })
    }

    pub fn from_u64(value: u64) -> (r: I256)
        ensures
            r@ == value,
    {
        I256 { words: [value, 0, 0, 0] }
    }

    /// The least value of the type.
    pub fn min_value() -> (r: I256)
        ensures
            r@ == -two_255(),
    {
        I256 { words: [0, 0, 0, 0x8000_0000_0000_0000] }
    }

    pub fn is_negative(&self) -> (r: bool)
        ensures
            r == (self@ < 0),
    {
        self.words[3] >= 0x8000_0000_0000_0000
    }

    pub fn less_than(&self, other: &I256) -> (r: bool)
        ensures
            r == (self@ < other@),
    {
        proof {
            lemma_words_value(self.words, other.words);
            lemma_words_value(other.words, self.words);
        }
        if self.is_negative() == other.is_negative() {
            U256 { words: self.words }.less_than(&U256 { words: other.words })
        } else {
            self.is_negative()
        }
    }

    /// The unsigned number as a signed one, through its decimal digits; refused where a signed
    /// word does not hold it.
    pub fn from_u256(value: U256) -> (r: Option<I256>)
        ensures
            r is Some <==> value@ < two_255(),
            r matches Some(v) ==> v@ == value@,
    {
        let text = value.to_decimal();
        proof {
            lemma_decimal_reads_back(value@);
            assert(crate::digits::is_dec_digit(text@[0]));
        }
        match I256::from_decimal(text.as_str()) {
            Ok(v) => Some(v),
            Err(_) => None,
        }
    }
}

} // verus!
