//! Natural numbers of arbitrary size, held as base-2^32 digits, and the
//! operations on them that the big-number crates provide.

use num::Integer;
use num::ToPrimitive;
use num_bigint::BigUint;
use num_bigint::RandBigInt;
use num_modular::ModularUnaryOps;
use num_prime::RandPrime;
use rand::CryptoRng;
use rand::Rng;
use vstd::arithmetic::power::pow;
use vstd::prelude::*;

use crate::arith::gcd;

verus! {

/// The number that a sequence of base-2^32 digits denotes, least significant
/// digit first.
pub open spec fn digits_value(s: Seq<u32>) -> nat
    decreases s.len(),
{
    if s.len() == 0 {
        0
    } else {
        s[0] as nat + 0x1_0000_0000 * digits_value(s.skip(1))
    }
}

/// A natural number of arbitrary size.
#[derive(Debug)]
pub struct Natural {
    digits: Vec<u32>,
}

impl View for Natural {
    type V = nat;

    closed spec fn view(&self) -> nat {
        digits_value(self.digits@)
    }
}

impl Clone for Natural {
    fn clone(&self) -> (r: Natural)
        ensures
            r@ == self@,
    {
        let digits = self.digits.clone();
        assert(digits@ =~= self.digits@);
        Natural { digits }
    }
}

impl Natural {
    /// The digits of this number, least significant first.
    pub closed spec fn spec_digits(&self) -> Seq<u32> {
        self.digits@
    }

    /// The number with the given base-2^32 digits, least significant first.
    pub fn from_digits(digits: Vec<u32>) -> (r: Natural)
        ensures
            r@ == digits_value(digits@),
            r.spec_digits() == digits@,
    {
        Natural { digits }
    }

    /// The base-2^32 digits of this number, least significant first.
    pub fn to_digits(&self) -> (r: Vec<u32>)
        ensures
            r@ == self.spec_digits(),
            digits_value(r@) == self@,
    {
        let r = self.digits.clone();
        assert(r@ =~= self.digits@);
        r
    }

    /// The number `v`.
    pub fn from_u64(v: u64) -> (r: Natural)
        ensures
            r@ == v,
    {
        let lo: u32 = (v & 0xffff_ffff) as u32;
        let hi: u32 = (v >> 32) as u32;
        let mut digits: Vec<u32> = Vec::new();
        digits.push(lo);
        digits.push(hi);
        proof {
            let s = digits@;
            assert(v == (v & 0xffff_ffff) + (v >> 32) * 0x1_0000_0000) by (bit_vector);
            assert((v & 0xffff_ffff) <= 0xffff_ffff) by (bit_vector);
            assert((v >> 32) <= 0xffff_ffff) by (bit_vector);
            assert(s.skip(1).len() == 1);
            assert(s.skip(1)[0] == hi);
            assert(s.skip(1).skip(1).len() == 0);
            reveal_with_fuel(digits_value, 3);
        }
        Natural { digits }
    }

    /// This number as a `u64`, where it fits.
    pub fn to_u64(&self) -> (r: Option<u64>)
        ensures
            r matches Some(v) ==> v == self@,
            r is None <==> self@ > u64::MAX,
    {
        big_to_u64(self)
    }

    /// Whether two numbers are equal.
    pub fn equals(&self, other: &Natural) -> (r: bool)
        ensures
            r == (self@ == other@),
    {
        big_eq(self, other)
    }

    /// Whether this number is less than `other`.
    pub fn less_than(&self, other: &Natural) -> (r: bool)
        ensures
            r == (self@ < other@),
    {
        big_lt(self, other)
    }
}

/// `ToPrimitive::to_u64` on `BigUint`: the value itself where it fits in 64
/// bits, and nothing otherwise.
#[verifier::external_body]
pub(crate) fn big_to_u64(a: &Natural) -> (r: Option<u64>)
    ensures
        r matches Some(v) ==> v == a@,
        r is None <==> a@ > u64::MAX,
{
    BigUint::new(a.digits.clone()).to_u64()
}

/// `==` on `BigUint`: equality of the two numbers.
#[verifier::external_body]
pub(crate) fn big_eq(a: &Natural, b: &Natural) -> (r: bool)
    ensures
        r == (a@ == b@),
{
    BigUint::new(a.digits.clone()) == BigUint::new(b.digits.clone())
}

/// `<` on `BigUint`: the numeric order.
#[verifier::external_body]
pub(crate) fn big_lt(a: &Natural, b: &Natural) -> (r: bool)
    ensures
        r == (a@ < b@),
{
    BigUint::new(a.digits.clone()) < BigUint::new(b.digits.clone())
}

/// `+` on `BigUint`: the exact sum.
#[verifier::external_body]
pub(crate) fn big_add(a: &Natural, b: &Natural) -> (r: Natural)
    ensures
        r@ == a@ + b@,
{
    Natural { digits: (BigUint::new(a.digits.clone()) + BigUint::new(b.digits.clone())).to_u32_digits() }
}

/// `-` on `BigUint`: the exact difference. The crate panics where the result
/// would be negative, so the subtrahend may not exceed the minuend.
#[verifier::external_body]
pub(crate) fn big_sub(a: &Natural, b: &Natural) -> (r: Natural)
    requires
        b@ <= a@,
    ensures
        r@ == a@ - b@,
{
    Natural { digits: (BigUint::new(a.digits.clone()) - BigUint::new(b.digits.clone())).to_u32_digits() }
}

/// `*` on `BigUint`: the exact product.
#[verifier::external_body]
pub(crate) fn big_mul(a: &Natural, b: &Natural) -> (r: Natural)
    ensures
        r@ == a@ * b@,
{
    Natural { digits: (BigUint::new(a.digits.clone()) * BigUint::new(b.digits.clone())).to_u32_digits() }
}

/// `%` on `BigUint`: the remainder of the division. The crate panics on a
/// zero divisor.
#[verifier::external_body]
pub(crate) fn big_rem(a: &Natural, m: &Natural) -> (r: Natural)
    requires
        m@ > 0,
    ensures
        r@ == a@ % m@,
{
    Natural { digits: (BigUint::new(a.digits.clone()) % BigUint::new(m.digits.clone())).to_u32_digits() }
}

/// `Integer::div_rem` on `BigUint`: quotient and remainder of the truncating
/// division. The crate panics on a zero divisor.
#[verifier::external_body]
pub(crate) fn big_div_rem(a: &Natural, b: &Natural) -> (r: (Natural, Natural))
    requires
        b@ > 0,
    ensures
        r.0@ == a@ / b@,
        r.1@ == a@ % b@,
{
    let (q, r) = BigUint::div_rem(&BigUint::new(a.digits.clone()), &BigUint::new(b.digits.clone()));
    (Natural { digits: q.to_u32_digits() }, Natural { digits: r.to_u32_digits() })
}

/// `BigUint::modpow`: `base^exponent` reduced modulo `modulus`. The crate
/// panics on a zero modulus; the modulus 1 is left out too, as no caller has
/// it.
#[verifier::external_body]
pub(crate) fn big_modpow(base: &Natural, exponent: &Natural, modulus: &Natural) -> (r: Natural)
    requires
        modulus@ > 1,
    ensures
        r@ == pow(base@ as int, exponent@) % (modulus@ as int),
{
    let m = BigUint::new(modulus.digits.clone());
    let e = BigUint::new(exponent.digits.clone());
    Natural { digits: BigUint::new(base.digits.clone()).modpow(&e, &m).to_u32_digits() }
}

/// `Integer::gcd` on `BigUint`: the greatest common divisor, which is the
/// other argument where one of them is zero.
#[verifier::external_body]
pub(crate) fn big_gcd(a: &Natural, b: &Natural) -> (r: Natural)
    ensures
        r@ == gcd(a@, b@),
{
    Natural { digits: BigUint::gcd(&BigUint::new(a.digits.clone()), &BigUint::new(b.digits.clone())).to_u32_digits() }
}

/// `ModularUnaryOps::invm` of `num-modular` on `BigUint`: the inverse of `x`
/// modulo `m`, reduced below `m`, which exists exactly where `x` and `m` are
/// coprime. The crate divides by `m`, so `m` may not be zero.
#[verifier::external_body]
pub(crate) fn big_invm(x: &Natural, m: &Natural) -> (r: Option<Natural>)
    requires
        m@ > 0,
    ensures
        r is Some <==> gcd(x@, m@) == 1,
        r matches Some(t) ==> t@ < m@ && (x@ * t@) % m@ == 1nat % m@,
{
    let inv = BigUint::new(x.digits.clone()).invm(&BigUint::new(m.digits.clone()));
    match inv {
        Some(t) => Some(Natural { digits: t.to_u32_digits() }),
        None => None,
    }
}

/// `RandBigInt::gen_biguint_range`: a number drawn from `[lo, hi)`. The crate
/// panics on an empty range.
#[verifier::external_body]
pub(crate) fn random_in_range<R: Rng + CryptoRng>(rng: &mut R, lo: &Natural, hi: &Natural) -> (r: Natural)
    requires
        lo@ < hi@,
    ensures
        lo@ <= r@ < hi@,
{
    let x = rng.gen_biguint_range(&BigUint::new(lo.digits.clone()), &BigUint::new(hi.digits.clone()));
    Natural { digits: x.to_u32_digits() }
}

/// `RandPrime::gen_prime` of `num-prime` with its default primality test: a
/// probable prime of about `bit_size` bits. Nothing is claimed of the value
/// drawn.
#[verifier::external_body]
pub(crate) fn random_prime<R: Rng + CryptoRng>(rng: &mut R, bit_size: usize) -> (r: Natural)
    requires
        bit_size > 0,
{
    let p: BigUint = rng.gen_prime(bit_size, None);
    Natural { digits: p.to_u32_digits() }
}

} // verus!
