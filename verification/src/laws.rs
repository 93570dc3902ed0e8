//! Laws of the cryptosystem, stated over the mathematical model that the
//! contracts of the key operations use.
//!
//! The laws hold of a key whose two factors are prime, and of blinding values
//! coprime to the modulus. Encryption draws its blinding value from `[1, n)`,
//! where all but a vanishing share of the values are coprime to `n`; the
//! ciphertext of one that is not has no plaintext.

use vstd::arithmetic::div_mod::{
    lemma_mod_multiples_basic, lemma_mod_multiples_vanish, lemma_mul_mod_noop_general,
    lemma_small_mod,
};
use vstd::arithmetic::power::{lemma_pow_distributes, lemma_pow_mod_noop, lemma_pow_multiplies, pow};
use vstd::prelude::*;

use crate::arith::{
    add_spec, coprime_to_square, decrypt_spec, encrypt_spec, gcd, scale_spec, unblinded,
};
use crate::keys::PrivateKey;
use crate::numtheory::{
    lemma_common_divisor_divides_gcd, lemma_decrypt_carried, lemma_encrypt_carries,
    lemma_inverse_cancels, lemma_pow_one_plus_multiple,
};
use crate::primes::{is_prime, lemma_euler_two_primes};

verus! {

/// Whether raising `r` to the power `lambda` gives 1 modulo `n`.
pub open spec fn annihilated(n: nat, lambda: nat, r: nat) -> bool {
    pow(r as int, lambda) % (n as int) == 1
}

/// Whether `key` is well formed and both factors of its modulus are prime.
pub open spec fn prime_key(key: PrivateKey) -> bool {
    key.wf() && is_prime(key.factors().0) && is_prime(key.factors().1)
}

/// Whether `r` is coprime to the modulus of `key`.
pub open spec fn unit(key: PrivateKey, r: nat) -> bool {
    gcd(r, key.modulus()) == 1
}

/// The exponent of a key with prime factors sends every number coprime to
/// the modulus to 1 modulo the modulus.
pub proof fn lemma_exponent_annihilates(key: PrivateKey, r: nat)
    requires
        prime_key(key),
        unit(key, r),
    ensures
        annihilated(key.modulus(), key.lambda(), r),
{
    let p = key.factors().0;
    let q = key.factors().1;
    let n = key.modulus();
    lemma_mod_multiples_basic(q as int, p as int);
    lemma_mod_multiples_basic(p as int, q as int);
    assert(p * q == q * p) by (nonlinear_arith);
    if r % p == 0 {
        lemma_common_divisor_divides_gcd(r, n, p);
        lemma_small_mod(1, p);
    }
    if r % q == 0 {
        lemma_common_divisor_divides_gcd(r, n, q);
        lemma_small_mod(1, q);
    }
    lemma_euler_two_primes(p, q, r);
    assert((p - 1) * (q - 1) == p * q + 1 - p - q) by (nonlinear_arith);
}

/// The ciphertext of `m` under `key` with blinding value `r`.
pub open spec fn ciphertext(key: PrivateKey, m: nat, r: nat) -> nat {
    encrypt_spec(key.modulus(), m, r)
}

/// The plaintext of `c` under `key`, if it has one.
pub open spec fn plaintext(key: PrivateKey, c: nat) -> Option<nat> {
    decrypt_spec(key.modulus(), key.lambda(), key.mu(), c)
}

/// Round trip: a plaintext below the modulus, encrypted with a blinding value
/// coprime to the modulus, is a well-formed ciphertext and decrypts to
/// itself, whatever the blinding value.
pub proof fn lemma_round_trip(key: PrivateKey, m: nat, r: nat)
    requires
        prime_key(key),
        m < key.modulus(),
        unit(key, r),
    ensures
        coprime_to_square(key.modulus(), ciphertext(key, m, r)),
        plaintext(key, ciphertext(key, m, r)) == Some(m),
{
    let n = key.modulus();
    let lambda = key.lambda();
    let mu = key.mu();
    lemma_exponent_annihilates(key, r);
    lemma_encrypt_carries(n, lambda, m, r);
    lemma_decrypt_carried(n, lambda, mu, ciphertext(key, m, r), m * lambda);
    lemma_inverse_cancels(n as int, lambda as int, mu as int, m as int);
    lemma_small_mod(m, n);
    assert(((m * lambda) * mu) as int == ((m as int) * (lambda as int)) * (mu as int));
}

/// Additive homomorphism: the product of the ciphertexts of `a` and `b`
/// modulo `n*n` decrypts to `(a + b) mod n`, whatever the two blinding values.
pub proof fn lemma_addition(key: PrivateKey, a: nat, b: nat, r_a: nat, r_b: nat)
    requires
        prime_key(key),
        a < key.modulus(),
        b < key.modulus(),
        unit(key, r_a),
        unit(key, r_b),
    ensures
        coprime_to_square(key.modulus(), ciphertext(key, a, r_a)),
        coprime_to_square(key.modulus(), ciphertext(key, b, r_b)),
        plaintext(
            key,
            add_spec(key.modulus(), ciphertext(key, a, r_a), ciphertext(key, b, r_b)),
        ) == Some((a + b) % key.modulus()),
{
    let n = key.modulus();
    let ni = n as int;
    let lambda = key.lambda();
    let mu = key.mu();
    let sq = ni * ni;
    assert(sq >= 4) by (nonlinear_arith)
        requires
            sq == ni * ni,
            ni >= 2,
    ;
    lemma_round_trip(key, a, r_a);
    lemma_round_trip(key, b, r_b);
    lemma_exponent_annihilates(key, r_a);
    lemma_exponent_annihilates(key, r_b);
    let ca = ciphertext(key, a, r_a) as int;
    let cb = ciphertext(key, b, r_b) as int;
    let c = add_spec(n, ca as nat, cb as nat);
    lemma_encrypt_carries(n, lambda, a, r_a);
    lemma_encrypt_carries(n, lambda, b, r_b);
    let xa = (a * lambda) as int;
    let xb = (b * lambda) as int;
    assert(c as int == (ca * cb) % sq);
    lemma_pow_mod_noop(ca * cb, lambda, sq);
    lemma_pow_distributes(ca, cb, lambda);
    lemma_mul_mod_noop_general(pow(ca, lambda), pow(cb, lambda), sq);
    lemma_mul_mod_noop_general(1 + ni * xa, 1 + ni * xb, sq);
    assert(pow(c as int, lambda) % sq == ((1 + ni * xa) * (1 + ni * xb)) % sq);
    let x = (a + b) * lambda;
    assert((1 + ni * xa) * (1 + ni * xb) == sq * (xa * xb) + (1 + ni * x)) by (nonlinear_arith)
        requires
            sq == ni * ni,
            xa == a * lambda,
            xb == b * lambda,
            x == (a + b) * lambda,
    ;
    lemma_mod_multiples_vanish(xa * xb, 1 + ni * x, sq);
    assert(unblinded(n, lambda, c) == ((1 + n * x) as int) % sq);
    lemma_decrypt_carried(n, lambda, mu, c, x);
    lemma_inverse_cancels(ni, lambda as int, mu as int, (a + b) as int);
    assert((x * mu) as int == (((a + b) as int) * (lambda as int)) * (mu as int));
}

/// Scalar homomorphism: the ciphertext of `a` raised to the power `k` modulo
/// `n*n` decrypts to `(a * k) mod n`, whatever the blinding value.
pub proof fn lemma_scaling(key: PrivateKey, a: nat, k: nat, r: nat)
    requires
        prime_key(key),
        a < key.modulus(),
        unit(key, r),
    ensures
        coprime_to_square(key.modulus(), ciphertext(key, a, r)),
        plaintext(key, scale_spec(key.modulus(), ciphertext(key, a, r), k)) == Some(
            (a * k) % key.modulus(),
        ),
{
    let n = key.modulus();
    let ni = n as int;
    let lambda = key.lambda();
    let mu = key.mu();
    let sq = ni * ni;
    assert(sq >= 4) by (nonlinear_arith)
        requires
            sq == ni * ni,
            ni >= 2,
    ;
    lemma_round_trip(key, a, r);
    lemma_exponent_annihilates(key, r);
    let ca = ciphertext(key, a, r) as int;
    let c = scale_spec(n, ca as nat, k);
    lemma_encrypt_carries(n, lambda, a, r);
    let xa = (a * lambda) as int;
    assert(c as int == pow(ca, k) % sq);
    lemma_pow_mod_noop(pow(ca, k), lambda, sq);
    lemma_pow_multiplies(ca, k, lambda);
    lemma_pow_multiplies(ca, lambda, k);
    assert(k * lambda == lambda * k) by (nonlinear_arith);
    assert(pow(c as int, lambda) % sq == pow(pow(ca, lambda), k) % sq);
    lemma_pow_mod_noop(pow(ca, lambda), k, sq);
    lemma_pow_mod_noop(1 + ni * xa, k, sq);
    lemma_pow_one_plus_multiple(ni, xa, k);
    let x = (a * k) * lambda;
    assert(k * xa == x) by (nonlinear_arith)
        requires
            xa == a * lambda,
            x == (a * k) * lambda,
    ;
    assert(unblinded(n, lambda, c) == ((1 + n * x) as int) % sq);
    lemma_decrypt_carried(n, lambda, mu, c, x);
    lemma_inverse_cancels(ni, lambda as int, mu as int, (a * k) as int);
    assert((x * mu) as int == (((a * k) as int) * (lambda as int)) * (mu as int));
}

/// The ciphertext 0 has no plaintext under any key: its greatest common
/// divisor with `n*n` is `n*n` itself.
pub proof fn lemma_zero_has_no_plaintext(key: PrivateKey)
    requires
        key.wf(),
    ensures
        gcd(0, key.modulus() * key.modulus()) == key.modulus() * key.modulus(),
        plaintext(key, 0) is None,
{
    let n = key.modulus();
    let sq = n * n;
    assert(sq >= 4) by (nonlinear_arith)
        requires
            sq == n * n,
            n >= 2,
    ;
    lemma_small_mod(0, sq);
    assert(gcd(0, sq) == gcd(sq, 0nat % sq));
    assert(gcd(sq, 0) == sq);
}

} // verus!
