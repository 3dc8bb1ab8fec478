use vstd::prelude::*;

use ethers::abi::{decode, ParamType, Token};

use crate::text::string_of;

verus! {

/// Fractional digits of the network's native unit.
pub const UNIT_DECIMALS: u64 = 18;

pub open spec fn pow10(k: nat) -> nat
    decreases k,
{
    if k == 0 {
        1
    } else {
        10 * pow10((k - 1) as nat)
    }
}

/// The value of 256 bits held as four 64-bit words, least significant first.
pub open spec fn words_value(w: Seq<u64>) -> nat {
    w[0] as nat + w[1] as nat * 0x1_0000_0000_0000_0000 + w[2] as nat
        * 0x1_0000_0000_0000_0000_0000_0000_0000_0000 + w[3] as nat
        * 0x1_0000_0000_0000_0000_0000_0000_0000_0000_0000_0000_0000_0000
}

/// The value of a big-endian byte string.
pub open spec fn be_value(b: Seq<u8>) -> nat
    decreases b.len(),
{
    if b.len() == 0 {
        0
    } else {
        be_value(b.drop_last()) * 256 + b.last() as nat
    }
}

pub open spec fn digit_char(d: nat) -> char {
    if d == 0 { '0' } else if d == 1 { '1' } else if d == 2 { '2' } else if d == 3 { '3' }
    else if d == 4 { '4' } else if d == 5 { '5' } else if d == 6 { '6' } else if d == 7 { '7' }
    else if d == 8 { '8' } else { '9' }
}

/// Decimal digits of `n`, without leading zeros (`0` is a single digit).
pub open spec fn decimal_digits(n: nat) -> Seq<char>
    decreases n,
{
    if n < 10 {
        seq![digit_char(n)]
    } else {
        decimal_digits(n / 10).push(digit_char(n % 10))
    }
}

/// Decimal digits of `n`, padded on the left with `0` to at least `width` characters.
pub open spec fn padded_digits(n: nat, width: nat) -> Seq<char> {
    let d = decimal_digits(n);
    if d.len() >= width {
        d
    } else {
        Seq::new((width - d.len()) as nat, |i: int| '0') + d
    }
}

/// Whole units, a point, and all eighteen fractional digits.
pub open spec fn unit_text(n: nat) -> Seq<char> {
    decimal_digits(n / pow10(UNIT_DECIMALS as nat)) + seq!['.'] + padded_digits(
        n % pow10(UNIT_DECIMALS as nat),
        (UNIT_DECIMALS as nat),
    )
}

/// Drops trailing `0` digits of a fraction, keeping at least one digit.
pub open spec fn trim_fraction(f: Seq<char>) -> Seq<char>
    decreases f.len(),
{
    if f.len() > 1 && f.last() == '0' {
        trim_fraction(f.drop_last())
    } else {
        f
    }
}

/// The whole units of an amount, in decimal.
pub open spec fn whole_part(n: nat) -> Seq<char> {
    decimal_digits(n / pow10(UNIT_DECIMALS as nat))
}

/// The fractional digits of an amount, without trailing zeros (at least one digit).
pub open spec fn fraction_part(n: nat) -> Seq<char> {
    trim_fraction(padded_digits(n % pow10(UNIT_DECIMALS as nat), UNIT_DECIMALS as nat))
}

/// The readable form of an amount: whole units, a point, and the fractional
/// digits without trailing zeros (at least one digit).
pub open spec fn supply_text(n: nat) -> Seq<char> {
    whole_part(n) + seq!['.'] + fraction_part(n)
}

/// The number that a string of decimal digits stands for.
pub open spec fn digits_value(s: Seq<char>) -> nat
    decreases s.len(),
{
    if s.len() == 0 {
        0
    } else {
        digits_value(s.drop_last()) * 10 + (s.last() as nat - '0' as nat) as nat
    }
}

proof fn lemma_digit_char(d: nat)
    requires
        d < 10,
    ensures
        (digit_char(d) as nat - '0' as nat) as nat == d,
{
}

proof fn lemma_digits_value(n: nat)
    ensures
        digits_value(decimal_digits(n)) == n,
    decreases n,
{
    let s = decimal_digits(n);
    if n >= 10 {
        lemma_digits_value(n / 10);
        assert(s.drop_last() =~= decimal_digits(n / 10));
        lemma_digit_char(n % 10);
        assert(n == (n / 10) * 10 + n % 10);
    } else {
        lemma_digit_char(n);
        assert(s.drop_last() =~= Seq::<char>::empty());
        assert(digits_value(s.drop_last()) == 0);
    }
}

proof fn lemma_value_concat(a: Seq<char>, b: Seq<char>)
    ensures
        digits_value(a + b) == digits_value(a) * pow10(b.len()) + digits_value(b),
    decreases b.len(),
{
    if b.len() == 0 {
        assert(a + b =~= a);
        assert(pow10(0) == 1);
        assert(digits_value(b) == 0);
    } else {
        let c = b.drop_last();
        assert((a + b).drop_last() =~= a + c);
        lemma_value_concat(a, c);
        assert(pow10(b.len()) == 10 * pow10(c.len()));
        assert((a + b).last() == b.last());
        let dig = (b.last() as nat - '0' as nat) as nat;
        assert(digits_value(b) == digits_value(c) * 10 + dig);
        assert(digits_value(a + b) == digits_value(a + c) * 10 + dig);
        assert((digits_value(a) * pow10(c.len()) + digits_value(c)) * 10 == digits_value(a)
            * pow10(b.len()) + digits_value(c) * 10) by (nonlinear_arith)
            requires
                pow10(b.len()) == 10 * pow10(c.len()),
        ;
    }
}

proof fn lemma_zeros_value(k: nat)
    ensures
        digits_value(Seq::new(k, |i: int| '0')) == 0,
    decreases k,
{
    if k > 0 {
        assert(Seq::new(k, |i: int| '0').drop_last() =~= Seq::new((k - 1) as nat, |i: int| '0'));
        lemma_zeros_value((k - 1) as nat);
    }
}

proof fn lemma_trim_value(f: Seq<char>)
    requires
        f.len() >= 1,
    ensures
        1 <= trim_fraction(f).len() <= f.len(),
        digits_value(trim_fraction(f)) * pow10((f.len() - trim_fraction(f).len()) as nat)
            == digits_value(f),
    decreases f.len(),
{
    if f.len() > 1 && f.last() == '0' {
        let g = f.drop_last();
        lemma_trim_value(g);
        let t = trim_fraction(g);
        let k = (g.len() - t.len()) as nat;
        assert(pow10(k + 1) == 10 * pow10(k));
        assert(trim_fraction(f) == t);
        assert(digits_value(f) == digits_value(g) * 10);
        assert(digits_value(t) * pow10(k + 1) == digits_value(t) * pow10(k) * 10) by (nonlinear_arith)
            requires
                pow10(k + 1) == 10 * pow10(k),
        ;
        assert((f.len() - t.len()) as nat == k + 1);
        assert(digits_value(t) * pow10(k) * 10 == digits_value(g) * 10);
        assert(digits_value(trim_fraction(f)) * pow10((f.len() - trim_fraction(f).len()) as nat)
            == digits_value(t) * pow10(k + 1));
    } else {
        assert(trim_fraction(f) == f);
        assert(pow10(0) == 1);
        assert((f.len() - f.len()) as nat == 0);
    }
}

/// The readable form is exact: its whole part scaled by the unit, plus its
/// fractional digits at their decimal places, is the amount itself; and the
/// fraction has between one and eighteen digits.
pub proof fn supply_text_is_exact(n: nat)
    ensures
        supply_text(n) == whole_part(n) + seq!['.'] + fraction_part(n),
        1 <= fraction_part(n).len() <= UNIT_DECIMALS,
        digits_value(whole_part(n)) * pow10(UNIT_DECIMALS as nat) + digits_value(fraction_part(n))
            * pow10((UNIT_DECIMALS - fraction_part(n).len()) as nat) == n,
{
    let e = pow10(UNIT_DECIMALS as nat);
    lemma_pow10_positive(UNIT_DECIMALS as nat);
    let r = n % e;
    lemma_padded_len(r);
    let d = decimal_digits(r);
    let p = padded_digits(r, UNIT_DECIMALS as nat);
    lemma_digits_value(r);
    lemma_digits_value(n / e);
    if d.len() < UNIT_DECIMALS {
        let z = Seq::new((UNIT_DECIMALS - d.len()) as nat, |i: int| '0');
        lemma_value_concat(z, d);
        lemma_zeros_value((UNIT_DECIMALS - d.len()) as nat);
    }
    assert(digits_value(p) == r);
    lemma_trim_value(p);
    vstd::arithmetic::div_mod::lemma_fundamental_div_mod(n as int, e as int);
    assert(n == e * (n / e) + r);
    assert(digits_value(whole_part(n)) * e == e * (n / e)) by (nonlinear_arith)
        requires
            digits_value(whole_part(n)) == n / e,
    ;
}

/// An unsigned 256-bit token amount in the contract's smallest unit.
pub struct TokenAmount {
    pub words: [u64; 4],
}

impl View for TokenAmount {
    type V = nat;

    open spec fn view(&self) -> nat {
        words_value(self.words@)
    }
}

/// Relies on `ethers::abi::decode` for one `uint256`: it succeeds exactly when
/// the data holds at least 32 bytes, and reads the first 32 as a big-endian number.
#[verifier::external_body]
fn decode_uint256(data: &Vec<u8>) -> (r: Option<[u64; 4]>)
    ensures
        r.is_some() <==> data@.len() >= 32,
        r.is_some() ==> words_value(r.unwrap()@) == be_value(data@.subrange(0, 32)),
{
    match decode(&[ParamType::Uint(256)], data.as_slice()) {
        Ok(tokens) => match tokens.into_iter().next() {
            Some(Token::Uint(v)) => Some(v.0),
            _ => None,
        },
        Err(_) => None,
    }
}

/// Relies on `ethers::utils::format_units` with the unit `ether` (18 decimals):
/// the quotient in decimal, a point, and the remainder padded to 18 digits.
/// It fails only for 77 or more decimals.
#[verifier::external_body]
fn format_ether(words: &[u64; 4]) -> (r: Option<Vec<char>>)
    ensures
        r.is_some(),
        r.unwrap()@ == unit_text(words_value(words@)),
{
    ethers::utils::format_units(ethers::types::U256(*words), "ether").ok().map(|s| s.chars().collect())
}

proof fn lemma_pow10_positive(k: nat)
    ensures
        pow10(k) > 0,
    decreases k,
{
    if k > 0 {
        lemma_pow10_positive((k - 1) as nat);
    }
}

proof fn lemma_digits_nonempty(n: nat)
    ensures
        decimal_digits(n).len() >= 1,
        forall|i: int| 0 <= i < decimal_digits(n).len() ==> #[trigger] decimal_digits(n)[i] != '.',
    decreases n,
{
    if n >= 10 {
        lemma_digits_nonempty(n / 10);
        let d = decimal_digits(n);
        assert forall|i: int| 0 <= i < d.len() implies #[trigger] d[i] != '.' by {
            if i < d.len() - 1 {
                assert(d[i] == decimal_digits(n / 10)[i]);
            }
        }
    }
}

proof fn lemma_digits_len(n: nat, k: nat)
    requires
        n < pow10(k),
        k >= 1,
    ensures
        decimal_digits(n).len() <= k,
    decreases k,
{
    if n >= 10 {
        assert(k >= 2) by {
            if k == 1 {
                assert(pow10(1) == 10 * pow10(0));
            }
        }
        assert(n / 10 < pow10((k - 1) as nat)) by (nonlinear_arith)
            requires
                n < pow10(k),
                pow10(k) == 10 * pow10((k - 1) as nat),
        ;
        lemma_digits_len(n / 10, (k - 1) as nat);
    }
}

proof fn lemma_padded_len(n: nat)
    requires
        n < pow10(UNIT_DECIMALS as nat),
    ensures
        padded_digits(n, (UNIT_DECIMALS as nat)).len() == (UNIT_DECIMALS as nat),
{
    lemma_digits_len(n, (UNIT_DECIMALS as nat));
}

/// Dropping `k` trailing zeros from a fraction, where `k` stops at a non-zero
/// digit or at one remaining digit, is what `trim_fraction` does.
proof fn lemma_trim_count(f: Seq<char>, k: nat)
    requires
        k < f.len(),
        forall|j: int| 0 <= j < k ==> #[trigger] f[f.len() - 1 - j] == '0',
        k == f.len() - 1 || f[f.len() - 1 - k] != '0',
    ensures
        trim_fraction(f) == f.subrange(0, f.len() - k),
    decreases k,
{
    if k == 0 {
        assert(f.subrange(0, f.len() as int) =~= f);
    } else {
        let g = f.drop_last();
        assert forall|j: int| 0 <= j < k - 1 implies #[trigger] g[g.len() - 1 - j] == '0' by {
            assert(f[f.len() - 1 - (j + 1)] == '0');
        }
        lemma_trim_count(g, (k - 1) as nat);
        assert(g.subrange(0, g.len() - (k - 1)) =~= f.subrange(0, f.len() - k));
    }
}

impl TokenAmount {
    pub fn from_u128(v: u128) -> (r: TokenAmount)
        ensures
            r@ == v,
    {
        let lo_wide: u128 = v & 0xffff_ffff_ffff_ffffu128;
        let hi_wide: u128 = v >> 64u128;
        assert(lo_wide == v % 0x1_0000_0000_0000_0000u128) by (bit_vector)
            requires
                lo_wide == v & 0xffff_ffff_ffff_ffffu128,
        ;
        assert(hi_wide == v / 0x1_0000_0000_0000_0000u128) by (bit_vector)
            requires
                hi_wide == v >> 64u128,
        ;
        proof {
            vstd::arithmetic::div_mod::lemma_fundamental_div_mod(v as int, 0x1_0000_0000_0000_0000);
        }
        let lo = lo_wide as u64;
        let hi = hi_wide as u64;
        TokenAmount { words: [lo, hi, 0, 0] }
    }

    /// Reads the amount that a `totalSupply()` call returned: the first 32 bytes
    /// as a big-endian number. Fewer than 32 bytes (as when no contract answers)
    /// hold no amount.
    pub fn from_return_data(data: &Vec<u8>) -> (r: Option<TokenAmount>)
        ensures
            r.is_some() <==> data@.len() >= 32,
            r matches Some(a) ==> a@ == be_value(data@.subrange(0, 32)),
    {
        match decode_uint256(data) {
            Some(words) => Some(TokenAmount { words }),
            None => None,
        }
    }

    /// The amount in whole units of the native scale, as decimal text: `1.0`
    /// for one unit, `0.0` for nothing.
    pub fn to_decimal_text(&self) -> (r: String)
        ensures
            r@ == supply_text(self@),
    {
        let ghost n = self@;
        let ghost e = pow10(UNIT_DECIMALS as nat);
        let ghost whole = decimal_digits(n / e);
        let ghost frac = padded_digits(n % e, (UNIT_DECIMALS as nat));
        let mut s = match format_ether(&self.words) {
            Some(s) => s,
            None => Vec::new(),
        };
        proof {
            lemma_pow10_positive(UNIT_DECIMALS as nat);
            lemma_padded_len(n % e);
            lemma_digits_nonempty(n / e);
            assert(s@ == whole + seq!['.'] + frac);
        }
        let len = s.len();
        let mut k: usize = 0;
        while k < 17 && s[len - 1 - k] == '0'
            invariant
                s@ == whole + seq!['.'] + frac,
                len == s@.len(),
                frac.len() == 18,
                whole.len() >= 1,
                k <= 17,
                forall|j: int| 0 <= j < k ==> #[trigger] frac[frac.len() - 1 - j] == '0',
            decreases 17 - k,
        {
            assert(s@[len - 1 - k] == frac[frac.len() - 1 - k]);
            k = k + 1;
        }
        proof {
            if k < 17 {
                assert(s@[len - 1 - k] == frac[frac.len() - 1 - k]);
            }
            lemma_trim_count(frac, k as nat);
            assert(s@.subrange(0, len - k) =~= whole + seq!['.'] + frac.subrange(0, frac.len() - k));
        }
        s.truncate(len - k);
        string_of(&s)
    }
}

} // verus!
