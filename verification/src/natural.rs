//! Arbitrary-precision natural numbers, the values held by the registers of
//! the machine.
//!
//! A [`Natural`] keeps its base 2<sup>32</sup> digits, least significant
//! first, exactly as `num_bigint::BigUint` hands them out. All arithmetic is
//! done by `num_bigint`; the functions here convert to and from `BigUint`
//! around each call.

use num_bigint::BigUint;
use std::cmp::Ordering;
use vstd::prelude::*;

verus! {

/// The number whose base 2<sup>32</sup> digits, least significant first, are
/// `digits`.
pub open spec fn digits_value(digits: Seq<u32>) -> nat
    decreases digits.len(),
{
    if digits.len() == 0 {
        0
    } else {
        digits[0] as nat + 4294967296 * digits_value(digits.drop_first())
    }
}

/// The decimal digit character for `d`, which is below ten.
pub open spec fn decimal_digit(d: nat) -> char {
    if d == 0 {
        '0'
    } else if d == 1 {
        '1'
    } else if d == 2 {
        '2'
    } else if d == 3 {
        '3'
    } else if d == 4 {
        '4'
    } else if d == 5 {
        '5'
    } else if d == 6 {
        '6'
    } else if d == 7 {
        '7'
    } else if d == 8 {
        '8'
    } else {
        '9'
    }
}

/// The usual decimal notation of `n`: no leading zeros, and `"0"` for zero.
pub open spec fn decimal(n: nat) -> Seq<char>
    decreases n,
{
    if n < 10 {
        seq![decimal_digit(n)]
    } else {
        decimal(n / 10).push(decimal_digit(n % 10))
    }
}

/// Whether `c` is one of the ten ASCII digits.
pub open spec fn is_decimal_char(c: char) -> bool {
    '0' <= c && c <= '9'
}

/// The value of the ASCII digit `c`.
pub open spec fn decimal_char_value(c: char) -> nat {
    ((c as u32) - ('0' as u32)) as nat
}

/// The number written by the digits of `s`, most significant first.
pub open spec fn decimal_value(s: Seq<char>) -> nat
    decreases s.len(),
{
    if s.len() == 0 {
        0
    } else {
        10 * decimal_value(s.drop_last()) + decimal_char_value(s.last())
    }
}

/// `s` without its first character where that is a `+` not followed by a
/// second `+`.
pub open spec fn strip_plus(s: Seq<char>) -> Seq<char> {
    if s.len() > 0 && s[0] == '+' && !(s.len() > 1 && s[1] == '+') {
        s.drop_first()
    } else {
        s
    }
}

/// `s` without its underscores.
pub open spec fn without_underscores(s: Seq<char>) -> Seq<char> {
    s.filter(|c: char| c != '_')
}

/// Whether `s` is a decimal numeral as [`Natural::parse`] reads it: after an
/// optional `+`, a nonempty run of ASCII digits and underscores that starts
/// with a digit.
pub open spec fn lenient_numeral(s: Seq<char>) -> bool {
    let t = strip_plus(s);
    &&& t.len() > 0
    &&& t[0] != '_'
    &&& forall|i: int| 0 <= i < t.len() ==> (is_decimal_char(#[trigger] t[i]) || t[i] == '_')
}

/// The number that the numeral `s` writes.
pub open spec fn numeral_value(s: Seq<char>) -> nat {
    decimal_value(without_underscores(strip_plus(s)))
}

/// The message with which [`Natural::parse`] refuses `s`.
pub open spec fn parse_error_message(s: Seq<char>) -> Seq<char> {
    if strip_plus(s).len() == 0 {
        "cannot parse integer from empty string"@
    } else {
        "invalid digit found in string"@
    }
}

/// A nonempty run of ASCII digits is a numeral, and writes its decimal value.
pub proof fn lemma_digits_numeral(s: Seq<char>)
    requires
        s.len() > 0,
        forall|i: int| 0 <= i < s.len() ==> is_decimal_char(#[trigger] s[i]),
    ensures
        lenient_numeral(s),
        numeral_value(s) == decimal_value(s),
{
    assert(strip_plus(s) == s);
    assert(without_underscores(s) =~= s) by {
        lemma_filter_keeps_all(s);
    }
}

/// Filtering out underscores leaves a string without any unchanged.
proof fn lemma_filter_keeps_all(s: Seq<char>)
    requires
        forall|i: int| 0 <= i < s.len() ==> is_decimal_char(#[trigger] s[i]),
    ensures
        without_underscores(s) == s,
    decreases s.len(),
{
    reveal_with_fuel(Seq::filter, 1);
    if s.len() > 0 {
        lemma_filter_keeps_all(s.drop_last());
        assert(s.drop_last().push(s.last()) =~= s);
        assert(is_decimal_char(s[s.len() - 1]));
    }
}

/// A natural number of any size.
#[derive(Debug, PartialEq, Eq)]
pub struct Natural {
    digits: Vec<u32>,
}

impl View for Natural {
    type V = nat;

    closed spec fn view(&self) -> nat {
        digits_value(self.digits@)
    }
}

impl Clone for Natural {
    fn clone(&self) -> (result: Self)
        ensures
            result@ == self@,
    {
        let digits = self.digits.clone();
        proof {
            assert(digits@ =~= self.digits@);
        }
        Natural { digits }
    }
}

/// Builds a `BigUint` from `n` with `From<u64>` and hands out its digits.
///
/// Trusted: the digits that `BigUint::from(n).to_u32_digits()` returns are
/// taken to represent `n`.
#[verifier::external_body]
fn natural_from_u64(n: u64) -> (result: Natural)
    ensures
        result@ == n,
{
    Natural { digits: BigUint::from(n).to_u32_digits() }
}

/// Adds two numbers with `BigUint`'s `+`.
///
/// Trusted: `BigUint::new(a) + BigUint::new(b)` is the sum of the values that
/// the two digit vectors represent.
#[verifier::external_body]
fn natural_add(a: &Natural, b: &Natural) -> (result: Natural)
    ensures
        result@ == a@ + b@,
{
    let sum = BigUint::new(a.digits.clone()) + BigUint::new(b.digits.clone());
    Natural { digits: sum.to_u32_digits() }
}

/// Subtracts with `BigUint`'s `-`, which panics when the result would be
/// negative; `requires` leaves those inputs out.
///
/// Trusted: the result is the difference of the two values.
#[verifier::external_body]
fn natural_sub(a: &Natural, b: &Natural) -> (result: Natural)
    requires
        b@ <= a@,
    ensures
        result@ == a@ - b@,
{
    let difference = BigUint::new(a.digits.clone()) - BigUint::new(b.digits.clone());
    Natural { digits: difference.to_u32_digits() }
}

/// Multiplies by a small factor with `BigUint`'s `* u32`.
///
/// Trusted: the result is the product of the value and the factor.
#[verifier::external_body]
fn natural_mul_u32(a: &Natural, factor: u32) -> (result: Natural)
    ensures
        result@ == a@ * factor,
{
    let product = BigUint::new(a.digits.clone()) * factor;
    Natural { digits: product.to_u32_digits() }
}

/// Compares two numbers with `BigUint`'s `Ord::cmp`.
///
/// Trusted: the ordering returned is the numeric order of the two values.
#[verifier::external_body]
fn natural_order(a: &Natural, b: &Natural) -> (result: Ordering)
    ensures
        (result == Ordering::Less) == (a@ < b@),
        (result == Ordering::Equal) == (a@ == b@),
        (result == Ordering::Greater) == (a@ > b@),
{
    BigUint::new(a.digits.clone()).cmp(&BigUint::new(b.digits.clone()))
}

/// Writes a number in decimal with `BigUint::to_str_radix(10)`.
///
/// Trusted: the string is the usual decimal notation of the value (the
/// documentation of `to_str_radix` gives the digits most significant first,
/// with no leading zeros).
#[verifier::external_body]
fn natural_to_decimal(a: &Natural) -> (result: String)
    ensures
        result@ == decimal(a@),
{
    BigUint::new(a.digits.clone()).to_str_radix(10)
}

/// Reads a number with `BigUint`'s `FromStr` (`from_str_radix` in base ten),
/// and on failure writes out the error with its `Display`.
///
/// Trusted: `from_str_radix` drops one leading `+` unless a second `+`
/// follows, fails on what is left being empty ("cannot parse integer from
/// empty string"), on its starting with `_` or holding any character but an
/// ASCII digit or `_` ("invalid digit found in string"), skips each `_`, and
/// otherwise gives the number that the digits write, most significant first.
#[verifier::external_body]
fn natural_parse(text: &str) -> (result: Result<Natural, String>)
    ensures
        match result {
            Ok(n) => lenient_numeral(text@) && n@ == numeral_value(text@),
            Err(message) => !lenient_numeral(text@) && message@ == parse_error_message(text@),
        },
{
    match text.parse::<BigUint>() {
        Ok(value) => Ok(Natural { digits: value.to_u32_digits() }),
        Err(error) => Err(error.to_string()),
    }
}

impl Natural {
    /// The number zero.
    pub fn zero() -> (result: Natural)
        ensures
            result@ == 0,
    {
        Natural { digits: Vec::new() }
    }

    /// The number one.
    pub fn one() -> (result: Natural)
        ensures
            result@ == 1,
    {
        natural_from_u64(1)
    }

    /// The number `n`.
    pub fn from_u64(n: u64) -> (result: Natural)
        ensures
            result@ == n,
    {
        natural_from_u64(n)
    }

    /// Reads a number written in decimal: one leading `+` may stand before
    /// it, and underscores between its digits are skipped. Refused with
    /// "cannot parse integer from empty string" where nothing is left after
    /// the `+`, and with "invalid digit found in string" where anything else
    /// is not a numeral.
    pub fn parse(text: &str) -> (result: Result<Natural, String>)
        ensures
            match result {
                Ok(n) => lenient_numeral(text@) && n@ == numeral_value(text@),
                Err(message) => !lenient_numeral(text@) && message@ == parse_error_message(
                    text@,
                ),
            },
    {
        natural_parse(text)
    }

    /// The sum `self + other`.
    pub fn add(&self, other: &Natural) -> (result: Natural)
        ensures
            result@ == self@ + other@,
    {
        natural_add(self, other)
    }

    /// The difference `self - other`, or zero where `other` is the greater.
    pub fn saturating_sub(&self, other: &Natural) -> (result: Natural)
        ensures
            result@ == (if other@ <= self@ { self@ - other@ } else { 0 }),
    {
        if other.le(self) {
            natural_sub(self, other)
        } else {
            Natural::zero()
        }
    }

    /// The product `self * factor`.
    pub fn mul_small(&self, factor: u32) -> (result: Natural)
        ensures
            result@ == self@ * factor,
    {
        natural_mul_u32(self, factor)
    }

    /// The number plus one.
    pub fn succ(&self) -> (result: Natural)
        ensures
            result@ == self@ + 1,
    {
        self.add(&Natural::one())
    }

    /// The number minus one, or zero for zero.
    pub fn pred(&self) -> (result: Natural)
        ensures
            result@ == (if self@ == 0 { 0 } else { self@ - 1 }),
    {
        self.saturating_sub(&Natural::one())
    }

    /// The numeric order of `self` and `other`.
    pub fn compare(&self, other: &Natural) -> (result: Ordering)
        ensures
            (result == Ordering::Less) == (self@ < other@),
            (result == Ordering::Equal) == (self@ == other@),
            (result == Ordering::Greater) == (self@ > other@),
    {
        natural_order(self, other)
    }

    /// Whether `self <= other`.
    pub fn le(&self, other: &Natural) -> (result: bool)
        ensures
            result == (self@ <= other@),
    {
        match natural_order(self, other) {
            Ordering::Greater => false,
            _ => true,
        }
    }

    /// Whether `self < other`.
    pub fn lt(&self, other: &Natural) -> (result: bool)
        ensures
            result == (self@ < other@),
    {
        match natural_order(self, other) {
            Ordering::Less => true,
            _ => false,
        }
    }

    /// Whether the two numbers are equal.
    pub fn equals(&self, other: &Natural) -> (result: bool)
        ensures
            result == (self@ == other@),
    {
        match natural_order(self, other) {
            Ordering::Equal => true,
            _ => false,
        }
    }

    /// Whether the number is zero.
    pub fn is_zero(&self) -> (result: bool)
        ensures
            result == (self@ == 0),
    {
        self.equals(&Natural::zero())
    }

    /// The decimal notation of the number.
    pub fn to_decimal(&self) -> (result: String)
        ensures
            result@ == decimal(self@),
    {
        natural_to_decimal(self)
    }
}

} // verus!
