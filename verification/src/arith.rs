//! The mathematical vocabulary of the contracts: greatest common divisor,
//! and the encryption and decryption maps over plain natural numbers.

use vstd::arithmetic::power::pow;
use vstd::prelude::*;

verus! {

/// The greatest common divisor of `a` and `b`, with `gcd(a, 0) == a`.
pub open spec fn gcd(a: nat, b: nat) -> nat
    decreases b,
{
    if b == 0 {
        a
    } else {
        gcd(b, a % b)
    }
}

/// The ciphertext of plaintext `m` under modulus `n` with blinding value `r`:
/// `(1 + n*m) * r^n`, reduced modulo `n*n`.
pub open spec fn encrypt_spec(n: nat, m: nat, r: nat) -> nat {
    let n2 = (n * n) as int;
    ((((n * m + 1) as int % n2) * (pow(r as int, n) % n2)) % n2) as nat
}

/// The value `c^lambda mod n*n` from which decryption reads the plaintext.
pub open spec fn unblinded(n: nat, lambda: nat, c: nat) -> int {
    pow(c as int, lambda) % ((n * n) as int)
}

/// The plaintext of `c` under the key `(n, lambda, mu)`, or `None` where `c`
/// is not a well-formed ciphertext: where it shares a factor with `n*n`, or
/// where `c^lambda mod n*n` is not congruent to 1 modulo `n`.
pub open spec fn decrypt_spec(n: nat, lambda: nat, mu: nat, c: nat) -> Option<nat> {
    let u = unblinded(n, lambda, c);
    if gcd(c, n * n) != 1 || (u - 1) % (n as int) != 0 {
        None
    } else {
        Some(((((u - 1) / (n as int)) * mu) % (n as int)) as nat)
    }
}

/// The product of two ciphertexts modulo `n*n`.
pub open spec fn add_spec(n: nat, lhs: nat, rhs: nat) -> nat {
    (lhs * rhs) % (n * n)
}

/// A ciphertext raised to the power `k` modulo `n*n`.
pub open spec fn scale_spec(n: nat, lhs: nat, k: nat) -> nat {
    (pow(lhs as int, k) % ((n * n) as int)) as nat
}

/// Whether `x` is coprime to `n*n`.
pub open spec fn coprime_to_square(n: nat, x: nat) -> bool {
    gcd(x, n * n) == 1
}

/// Whether the pair `(p, q)` yields a key: both are positive and distinct, and
/// `(p-1)*(q-1)` is invertible modulo `p*q`.
pub open spec fn usable_factors(p: nat, q: nat) -> bool {
    &&& p >= 1
    &&& q >= 1
    &&& p != q
    &&& gcd((p * q + 1 - p - q) as nat, p * q) == 1
}

} // verus!
