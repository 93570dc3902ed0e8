//! Lemmas of modular arithmetic on which the laws of the cryptosystem rest.

use vstd::arithmetic::div_mod::{
    lemma_add_mod_noop, lemma_fundamental_div_mod, lemma_fundamental_div_mod_converse,
    lemma_mod_multiples_vanish, lemma_mul_mod_noop_general, lemma_small_mod, lemma_sub_mod_noop,
};
use vstd::arithmetic::power::{
    lemma_pow0, lemma_pow1, lemma_pow_adds, lemma_pow_distributes, lemma_pow_mod_noop,
    lemma_pow_multiplies, pow,
};
use vstd::prelude::*;

use crate::arith::{decrypt_spec, encrypt_spec, gcd, unblinded};

verus! {

/// The greatest common divisor divides both of its arguments, and is positive
/// unless both are zero.
pub proof fn lemma_gcd_divides(a: nat, b: nat)
    requires
        a > 0 || b > 0,
    ensures
        gcd(a, b) > 0,
        a % gcd(a, b) == 0,
        b % gcd(a, b) == 0,
    decreases b,
{
    if b == 0 {
        assert(a % a == 0) by (nonlinear_arith)
            requires
                a > 0,
        ;
        assert(0nat % a == 0) by (nonlinear_arith)
            requires
                a > 0,
        ;
    } else {
        let g = gcd(b, a % b);
        lemma_gcd_divides(b, a % b);
        let gi = g as int;
        lemma_fundamental_div_mod(a as int, b as int);
        lemma_mul_mod_noop_general(b as int, (a / b) as int, gi);
        assert((0 * ((a / b) as int)) % gi == 0) by (nonlinear_arith)
            requires
                gi > 0,
        ;
        lemma_add_mod_noop((b * (a / b)) as int, (a % b) as int, gi);
        assert((0int + 0int) % gi == 0) by (nonlinear_arith)
            requires
                gi > 0,
        ;
    }
}

/// A common divisor of two numbers divides their greatest common divisor.
pub proof fn lemma_common_divisor_divides_gcd(a: nat, b: nat, d: nat)
    requires
        d > 0,
        a % d == 0,
        b % d == 0,
    ensures
        gcd(a, b) % d == 0,
    decreases b,
{
    if b != 0 {
        let di = d as int;
        lemma_fundamental_div_mod(a as int, b as int);
        lemma_mul_mod_noop_general(b as int, (a / b) as int, di);
        assert((0 * ((a / b) as int)) % di == 0) by (nonlinear_arith)
            requires
                di > 0,
        ;
        lemma_sub_mod_noop(a as int, (b * (a / b)) as int, di);
        assert((0int - 0int) % di == 0) by (nonlinear_arith)
            requires
                di > 0,
        ;
        assert((a % b) as int == a - b * (a / b));
        lemma_common_divisor_divides_gcd(b, a % b, d);
    }
}

/// A number with an inverse modulo `m` is coprime to `m`.
pub proof fn lemma_unit_is_coprime(c: nat, w: int, m: nat)
    requires
        m >= 2,
        (c * w) % (m as int) == 1,
    ensures
        gcd(c, m) == 1,
{
    lemma_gcd_divides(c, m);
    let g = gcd(c, m) as int;
    let mi = m as int;
    let k = (c * w) / mi;
    lemma_fundamental_div_mod(c * w, mi);
    assert(c * w - mi * k == 1);
    lemma_mul_mod_noop_general(c as int, w, g);
    lemma_mul_mod_noop_general(mi, k, g);
    assert((0 * w) % g == 0 && (0 * k) % g == 0) by (nonlinear_arith)
        requires
            g > 0,
    ;
    lemma_sub_mod_noop(c * w, mi * k, g);
    assert((0int - 0int) % g == 0) by (nonlinear_arith)
        requires
            g > 0,
    ;
    assert(1int % g == 0);
    if g >= 2 {
        lemma_small_mod(1, g as nat);
    }
}

/// To first order in `n`: `(1 + n*x)^k` is `1 + n*(k*x)` modulo `n*n`.
pub proof fn lemma_pow_one_plus_multiple(n: int, x: int, k: nat)
    requires
        n > 0,
    ensures
        pow(1 + n * x, k) % (n * n) == (1 + n * (k * x)) % (n * n),
    decreases k,
{
    let m = n * n;
    assert(m > 0) by (nonlinear_arith)
        requires
            m == n * n,
            n > 0,
    ;
    let b = 1 + n * x;
    if k == 0 {
        lemma_pow0(b);
        assert(1 + n * (0 * x) == 1) by (nonlinear_arith);
    } else {
        let j = (k - 1) as nat;
        lemma_pow_one_plus_multiple(n, x, j);
        lemma_pow_adds(b, 1, j);
        lemma_pow1(b);
        assert(pow(b, k) == b * pow(b, j));
        lemma_mul_mod_noop_general(b, pow(b, j), m);
        lemma_mul_mod_noop_general(b, 1 + n * (j * x), m);
        assert((b * pow(b, j)) % m == (b * (1 + n * (j * x))) % m);
        assert(b * (1 + n * (j * x)) == m * (j * x * x) + (1 + n * (k * x))) by (nonlinear_arith)
            requires
                b == 1 + n * x,
                m == n * n,
                j + 1 == k,
        ;
        lemma_mod_multiples_vanish(j * x * x, 1 + n * (k * x), m);
    }
}

/// Reducing `1 + n*y` modulo `n*n` reduces `y` modulo `n`.
pub proof fn lemma_one_plus_multiple_reduced(n: int, y: int)
    requires
        n >= 2,
    ensures
        (1 + n * y) % (n * n) == 1 + n * (y % n),
        0 <= y % n < n,
{
    let q = y / n;
    let t = y % n;
    lemma_fundamental_div_mod(y, n);
    assert(0 <= t < n) by (nonlinear_arith)
        requires
            t == y % n,
            n >= 2,
    ;
    assert(1 + n * y == q * (n * n) + (1 + n * t)) by (nonlinear_arith)
        requires
            y == n * q + t,
    ;
    assert(0 <= 1 + n * t < n * n) by (nonlinear_arith)
        requires
            0 <= t < n,
            n >= 2,
    ;
    lemma_fundamental_div_mod_converse(1 + n * y, n * n, q, 1 + n * t);
}

/// Multiplying by `lambda * mu` changes nothing modulo `n` where `mu` is the
/// inverse of `lambda`.
pub proof fn lemma_inverse_cancels(n: int, lambda: int, mu: int, y: int)
    requires
        n >= 2,
        (lambda * mu) % n == 1,
    ensures
        ((y * lambda) * mu) % n == y % n,
{
    assert((y * lambda) * mu == y * (lambda * mu)) by (nonlinear_arith);
    lemma_mul_mod_noop_general(y, lambda * mu, n);
    assert(y * 1 == y);
}

/// A number `c` whose power `c^lambda` is `1 + n*x` modulo `n*n` is coprime
/// to `n*n` and decrypts to `x * mu` modulo `n`.
pub proof fn lemma_decrypt_carried(n: nat, lambda: nat, mu: nat, c: nat, x: nat)
    requires
        n >= 2,
        (lambda * mu) % n == 1,
        unblinded(n, lambda, c) == ((1 + n * x) as int) % ((n * n) as int),
    ensures
        gcd(c, n * n) == 1,
        decrypt_spec(n, lambda, mu, c) == Some(((x * mu) % n) as nat),
{
    let ni = n as int;
    let m = ni * ni;
    assert(m >= 4) by (nonlinear_arith)
        requires
            m == ni * ni,
            ni >= 2,
    ;
    let u = unblinded(n, lambda, c);
    let t = (x as int) % ni;
    lemma_one_plus_multiple_reduced(ni, x as int);
    assert(u == 1 + ni * t);
    assert(u - 1 == t * ni + 0) by (nonlinear_arith)
        requires
            u == 1 + ni * t,
    ;
    lemma_fundamental_div_mod_converse(u - 1, ni, t, 0);
    lemma_mul_mod_noop_general(x as int, mu as int, ni);
    assert((((u - 1) / ni) * mu) % ni == ((x * mu) as int) % ni);

    // An inverse of `c` modulo `n*n`.
    if lambda == 0 {
        assert(lambda * mu == 0) by (nonlinear_arith)
            requires
                lambda == 0,
        ;
        lemma_small_mod(0, n);
        assert(false);
    }
    let ci = c as int;
    let rest = pow(ci, (lambda - 1) as nat);
    lemma_pow_adds(ci, 1, (lambda - 1) as nat);
    lemma_pow1(ci);
    assert(pow(ci, lambda) == ci * rest);
    let v = 1 + ni * (ni - t);
    let w = rest * v;
    assert(ci * w == pow(ci, lambda) * v) by (nonlinear_arith)
        requires
            w == rest * v,
            pow(ci, lambda) == ci * rest,
    ;
    lemma_mul_mod_noop_general(pow(ci, lambda), v, m);
    assert((ci * w) % m == (u * v) % m);
    assert(u * v == m * (1 + t * (ni - t)) + 1) by (nonlinear_arith)
        requires
            u == 1 + ni * t,
            v == 1 + ni * (ni - t),
            m == ni * ni,
    ;
    lemma_mod_multiples_vanish(1 + t * (ni - t), 1, m);
    lemma_small_mod(1, m as nat);
    lemma_unit_is_coprime(c, w, m as nat);
}

/// Where `r^lambda` is 1 modulo `n`, the ciphertext of `m` with blinding
/// value `r`, raised to `lambda`, is `1 + n*(m*lambda)` modulo `n*n`.
pub proof fn lemma_encrypt_carries(n: nat, lambda: nat, m: nat, r: nat)
    requires
        n >= 2,
        pow(r as int, lambda) % (n as int) == 1,
    ensures
        unblinded(n, lambda, encrypt_spec(n, m, r)) == ((1 + n * (m * lambda)) as int) % ((n * n) as int),
{
    let ni = n as int;
    let sq = ni * ni;
    assert(sq >= 4) by (nonlinear_arith)
        requires
            sq == ni * ni,
            ni >= 2,
    ;
    let ri = r as int;
    let a = (n * m + 1) as int;
    let b = pow(ri, n);
    // The blinding factor vanishes: (r^n)^lambda is 1 modulo n*n.
    let rl = pow(ri, lambda);
    let k = rl / ni;
    lemma_fundamental_div_mod(rl, ni);
    assert(rl == 1 + ni * k);
    lemma_pow_multiplies(ri, n, lambda);
    lemma_pow_multiplies(ri, lambda, n);
    assert(n * lambda == lambda * n) by (nonlinear_arith);
    assert(pow(b, lambda) == pow(rl, n));
    lemma_pow_one_plus_multiple(ni, k, n);
    assert(1 + ni * (n * k) == sq * k + 1) by (nonlinear_arith)
        requires
            sq == ni * ni,
            ni == n,
    ;
    lemma_mod_multiples_vanish(k, 1, sq);
    lemma_small_mod(1, sq as nat);
    assert(pow(b, lambda) % sq == 1);
    // The message factor: (1 + n*m)^lambda is 1 + n*(lambda*m) modulo n*n.
    lemma_pow_one_plus_multiple(ni, m as int, lambda);
    assert(a == 1 + ni * m);
    assert(lambda * m == m * lambda) by (nonlinear_arith);
    assert(pow(a, lambda) % sq == (1 + ni * (m * lambda)) % sq);
    // Together.
    let c = encrypt_spec(n, m, r);
    let prod = (a % sq) * (b % sq);
    assert(c == prod % sq);
    lemma_pow_mod_noop(prod, lambda, sq);
    lemma_pow_distributes(a % sq, b % sq, lambda);
    lemma_mul_mod_noop_general(pow(a % sq, lambda), pow(b % sq, lambda), sq);
    lemma_pow_mod_noop(a, lambda, sq);
    lemma_pow_mod_noop(b, lambda, sq);
    assert(pow(c as int, lambda) % sq == (((1 + ni * (m * lambda)) % sq) * 1) % sq);
    vstd::arithmetic::div_mod::lemma_mod_twice(1 + ni * (m * lambda), sq);
}

} // verus!
