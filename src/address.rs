use vstd::prelude::*;

use crate::text::chars_of;

verus! {

/// Number of bytes in a contract address.
pub const ADDRESS_LEN: usize = 20;

/// The value of a hexadecimal digit, either case.
pub open spec fn hex_value(c: char) -> nat {
    if '0' <= c && c <= '9' {
        (c as nat - '0' as nat) as nat
    } else if 'a' <= c && c <= 'f' {
        (c as nat - 'a' as nat + 10) as nat
    } else {
        (c as nat - 'A' as nat + 10) as nat
    }
}

pub open spec fn is_hex_digit(c: char) -> bool {
    ('0' <= c && c <= '9') || ('a' <= c && c <= 'f') || ('A' <= c && c <= 'F')
}

/// The lower-case hexadecimal digit for `n < 16`.
pub open spec fn hex_char(n: nat) -> char {
    if n < 10 {
        ((n + '0' as nat) as u32) as char
    } else {
        ((n - 10 + 'a' as nat) as u32) as char
    }
}

/// The text after an optional leading `0x`.
pub open spec fn hex_body(s: Seq<char>) -> Seq<char> {
    if s.len() >= 2 && s[0] == '0' && s[1] == 'x' {
        s.subrange(2, s.len() as int)
    } else {
        s
    }
}

/// A well-formed address: an optional `0x` and exactly forty hexadecimal digits.
pub open spec fn address_text_ok(s: Seq<char>) -> bool {
    let d = hex_body(s);
    d.len() == 2 * ADDRESS_LEN && forall|i: int| 0 <= i < d.len() ==> is_hex_digit(#[trigger] d[i])
}

/// The bytes that a string of hexadecimal digit pairs stands for.
pub open spec fn hex_decode(d: Seq<char>) -> Seq<u8> {
    Seq::new(d.len() / 2, |i: int| (hex_value(d[2 * i]) * 16 + hex_value(d[2 * i + 1])) as u8)
}

/// Two lower-case hexadecimal digits per byte, high nibble first.
pub open spec fn hex_encode(b: Seq<u8>) -> Seq<char> {
    Seq::new(
        2 * b.len(),
        |i: int|
            if i % 2 == 0 {
                hex_char(b[i / 2] as nat / 16)
            } else {
                hex_char(b[i / 2] as nat % 16)
            },
    )
}

/// `0x` followed by the lower-case hexadecimal form of the bytes.
pub open spec fn address_text(b: Seq<u8>) -> Seq<char> {
    seq!['0', 'x'] + hex_encode(b)
}

/// A 20-byte contract address.
pub struct ContractAddress {
    pub bytes: [u8; 20],
}

impl View for ContractAddress {
    type V = Seq<u8>;

    open spec fn view(&self) -> Seq<u8> {
        self.bytes@
    }
}

/// Relies on `H160: FromStr`: after an optional `0x`, pairs of hexadecimal digits,
/// high nibble first, fill the twenty bytes in order.
#[verifier::external_body]
fn decode_h160(text: &str) -> (r: Option<[u8; 20]>)
    requires
        address_text_ok(text@),
    ensures
        r.is_some(),
        r.unwrap()@ == hex_decode(hex_body(text@)),
{
    text.parse::<ethers::types::H160>().ok().map(|h| h.0)
}

/// Relies on the alternate `LowerHex` form of `H160`: `0x` and two lower-case
/// digits per byte.
#[verifier::external_body]
fn h160_text(bytes: &[u8; 20]) -> (r: String)
    ensures
        r@ == address_text(bytes@),
{
    format!("{:#x}", ethers::types::H160(*bytes))
}

fn all_hex(d: &Vec<char>, from: usize) -> (r: bool)
    requires
        from <= d@.len(),
    ensures
        r == forall|i: int| from <= i < d@.len() ==> is_hex_digit(#[trigger] d@[i]),
{
    let mut i: usize = from;
    while i < d.len()
        invariant
            from <= i <= d@.len(),
            forall|j: int| from <= j < i ==> is_hex_digit(#[trigger] d@[j]),
        decreases d@.len() - i,
    {
        let c = d[i];
        if !(('0' <= c && c <= '9') || ('a' <= c && c <= 'f') || ('A' <= c && c <= 'F')) {
            return false;
        }
        i = i + 1;
    }
    true
}

impl ContractAddress {
    /// Reads an address from its text form: an optional `0x` and forty
    /// hexadecimal digits. Anything else is refused.
    pub fn parse(text: &str) -> (r: Option<ContractAddress>)
        ensures
            r.is_some() <==> address_text_ok(text@),
            r matches Some(a) ==> a@ == hex_decode(hex_body(text@)),
    {
        let d = chars_of(text);
        let from: usize = if d.len() >= 2 && d[0] == '0' && d[1] == 'x' { 2 } else { 0 };
        assert(hex_body(text@) =~= d@.subrange(from as int, d@.len() as int));
        if d.len() - from != 2 * ADDRESS_LEN {
            return None;
        }
        if !all_hex(&d, from) {
            assert(!address_text_ok(text@)) by {
                let b = hex_body(text@);
                if forall|i: int| 0 <= i < b.len() ==> is_hex_digit(#[trigger] b[i]) {
                    assert forall|j: int| from <= j < d@.len() implies is_hex_digit(#[trigger] d@[j]) by {
                        assert(b[j - from] == d@[j]);
                    }
                }
            }
            return None;
        }
        assert forall|i: int| 0 <= i < hex_body(text@).len() implies is_hex_digit(#[trigger] hex_body(text@)[i]) by {
            assert(hex_body(text@)[i] == d@[i + from]);
        }
        match decode_h160(text) {
            Some(bytes) => Some(ContractAddress { bytes }),
            None => None,
        }
    }

    /// The text form: `0x` and forty lower-case hexadecimal digits.
    pub fn to_text(&self) -> (r: String)
        ensures
            r@ == address_text(self@),
    {
        h160_text(&self.bytes)
    }

    pub fn from_bytes(bytes: [u8; 20]) -> (r: ContractAddress)
        ensures
            r@ == bytes@,
    {
        ContractAddress { bytes }
    }

    pub fn as_bytes(&self) -> (r: [u8; 20])
        ensures
            r@ == self@,
    {
        self.bytes
    }
}

} // verus!
