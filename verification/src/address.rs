//! Account addresses.
use vstd::prelude::*;

use crate::digits::{all_hex_digits, hex_digit_value, is_hex_digit, without_0x};

verus! {

/// The address of an account or a contract.
#[derive(Clone, Copy, Debug)]
pub struct Address {
    pub bytes: [u8; 20],
}

impl PartialEq for Address {
    fn eq(&self, other: &Address) -> (r: bool) {
        let mut i: usize = 0;
        while i < 20
            invariant
                i <= 20,
                forall|j: int| 0 <= j < i ==> self.bytes[j] == other.bytes[j],
            decreases 20 - i,
        {
            if self.bytes[i] != other.bytes[i] {
                return false;
            }
            i = i + 1;
        }
        assert(self.bytes =~= other.bytes);
        true
    }
}

impl vstd::std_specs::cmp::PartialEqSpecImpl for Address {
    open spec fn obeys_eq_spec() -> bool {
        true
    }

    open spec fn eq_spec(&self, other: &Address) -> bool {
        *self == *other
    }
}

impl Eq for Address {

}

/// Whether a character is passed over where an address is read.
pub open spec fn is_blank(c: char) -> bool {
    c == ' ' || c == '\r' || c == '\n' || c == '\t'
}

/// The digits of an address text: what stands behind a leading `0x`, without blanks.
pub open spec fn address_digits(text: Seq<char>) -> Seq<char> {
    without_0x(text).filter(|c: char| !is_blank(c))
}

/// Whether a text is an address: 40 hexadecimal digits.
pub open spec fn is_address_text(text: Seq<char>) -> bool {
    address_digits(text).len() == 40 && all_hex_digits(address_digits(text))
}

/// The bytes of the address that a text stands for, two digits to a byte.
pub open spec fn address_bytes(text: Seq<char>) -> Seq<u8> {
    Seq::new(
        20,
        |i: int|
            (hex_digit_value(address_digits(text)[2 * i]) * 16 + hex_digit_value(
                address_digits(text)[2 * i + 1],
            )) as u8,
    )
}

impl Address {
    /// Reads an address with `FromStr` of `ethers::types::Address`, which is claimed to take a
    /// text for an address exactly where [`is_address_text`] holds, and then for the bytes of
    /// [`address_bytes`].
    #[verifier::external_body]
    fn from_str(text: &str) -> (r: Option<Address>)
        ensures
            r is Some <==> is_address_text(text@),
            r matches Some(address) ==> address.bytes@ == address_bytes(text@),
    {
        let parsed = <ethers::types::Address as std::str::FromStr>::from_str(text);
        parsed.ok().map(|a| Address { bytes: a.0 })
    }

    /// Reads an address from its hexadecimal digits; nothing if the text is no address.
    pub fn parse(text: &str) -> (r: Option<Address>)
        ensures
            r is Some <==> is_address_text(text@),
            r matches Some(address) ==> address.bytes@ == address_bytes(text@),
    {
        Address::from_str(text)
    }
}

/// Whether the last `n` characters before position `end` are hexadecimal digits.
pub(crate) open spec fn hex_before(s: Seq<char>, end: int, n: nat) -> bool
    decreases n,
{
    n == 0 || (is_hex_digit(s[end - 1]) && hex_before(s, end - 1, (n - 1) as nat))
}

proof fn lemma_hex_before(s: Seq<char>, end: int, n: nat)
    requires
        hex_before(s, end, n),
    ensures
        forall|i: int| end - n <= i < end ==> is_hex_digit(#[trigger] s[i]),
    decreases n,
{
    if n > 0 {
        lemma_hex_before(s, end - 1, (n - 1) as nat);
    }
}

proof fn lemma_filter_keeps_all<A>(s: Seq<A>, keep: spec_fn(A) -> bool)
    requires
        forall|i: int| 0 <= i < s.len() ==> keep(#[trigger] s[i]),
    ensures
        s.filter(keep) == s,
    decreases s.len(),
{
    reveal(Seq::filter);
    if s.len() > 0 {
        lemma_filter_keeps_all(s.drop_last(), keep);
        assert(keep(s.last()));
        assert(s.drop_last().push(s.last()) =~= s);
    }
}

/// `0x` and 40 hexadecimal digits make an address text.
pub(crate) proof fn lemma_plain_address_text(s: Seq<char>)
    requires
        s.len() == 42,
        s[0] == '0',
        s[1] == 'x',
        hex_before(s, 42, 40),
    ensures
        is_address_text(s),
{
    lemma_hex_before(s, 42, 40);
    let digits = s.skip(2);
    let keep = |c: char| !is_blank(c);
    assert forall|i: int| 0 <= i < digits.len() implies is_hex_digit(#[trigger] digits[i])
        && keep(digits[i]) by {
        assert(digits[i] == s[i + 2]);
    }
    lemma_filter_keeps_all(digits, keep);
}

} // verus!
