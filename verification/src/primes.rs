//! Primes: Euclid's lemma, Fermat's little theorem, and Euler's theorem for
//! a product of two distinct primes.

use vstd::arithmetic::div_mod::{
    lemma_fundamental_div_mod, lemma_mod_bound, lemma_mod_multiples_basic, lemma_mod_multiples_vanish,
    lemma_mod_pos_bound, lemma_mul_mod_noop_general, lemma_small_mod, lemma_sub_mod_noop,
};
use vstd::arithmetic::power::{
    lemma1_pow, lemma_pow0, lemma_pow1, lemma_pow_adds, lemma_pow_mod_noop, lemma_pow_multiplies,
    pow,
};
use vstd::prelude::*;

verus! {

/// Whether `p` is a prime number.
pub open spec fn is_prime(p: nat) -> bool {
    p >= 2 && forall|d: int| 1 < d < p ==> #[trigger] ((p as int) % d) != 0
}

/// The product `1 * 2 * ... * k`.
pub open spec fn factorial(k: nat) -> int
    decreases k,
{
    if k == 0 {
        1
    } else {
        k * factorial((k - 1) as nat)
    }
}

/// The product of the elements of `s`.
pub open spec fn product(s: Seq<int>) -> int
    decreases s.len(),
{
    if s.len() == 0 {
        1
    } else {
        product(s.drop_last()) * s.last()
    }
}

/// The residues of `a*1, a*2, ..., a*k` modulo `p`.
pub open spec fn residues(a: nat, p: nat, k: nat) -> Seq<int> {
    Seq::new(k, |i: int| (a * (i + 1)) % (p as int))
}

/// Euclid's lemma for a first factor below the prime: a prime that divides
/// `a * b` with `0 < a < p` divides `b`.
pub proof fn lemma_prime_divides_second(p: nat, a: int, b: int)
    requires
        is_prime(p),
        0 < a < p,
        (a * b) % (p as int) == 0,
    ensures
        b % (p as int) == 0,
    decreases a,
{
    let pi = p as int;
    if a == 1 {
        assert(a * b == b) by (nonlinear_arith)
            requires
                a == 1,
        ;
    } else {
        let s = pi % a;
        let k = pi / a;
        lemma_fundamental_div_mod(pi, a);
        lemma_mod_pos_bound(pi, a);
        assert((p as int) % a != 0);
        let j = (a * b) / pi;
        lemma_fundamental_div_mod(a * b, pi);
        assert(s * b == (b - k * j) * pi) by (nonlinear_arith)
            requires
                pi == a * k + s,
                a * b == pi * j + 0,
        ;
        lemma_mod_multiples_basic(b - k * j, pi);
        lemma_prime_divides_second(p, s, b);
    }
}

/// Euclid's lemma: a prime that divides `a * b` and not `a` divides `b`.
pub proof fn lemma_euclid(p: nat, a: int, b: int)
    requires
        is_prime(p),
        a % (p as int) != 0,
        (a * b) % (p as int) == 0,
    ensures
        b % (p as int) == 0,
{
    let pi = p as int;
    lemma_mul_mod_noop_general(a, b, pi);
    lemma_mod_bound(a, pi);
    lemma_prime_divides_second(p, a % pi, b);
}

/// Taking one element out of a sequence divides its product by that element.
pub proof fn lemma_product_remove(s: Seq<int>, j: int)
    requires
        0 <= j < s.len(),
    ensures
        product(s) == s[j] * product(s.remove(j)),
    decreases s.len(),
{
    if j == s.len() - 1 {
        assert(s.remove(j) =~= s.drop_last());
        assert(product(s) == s[j] * product(s.drop_last())) by (nonlinear_arith)
            requires
                product(s) == product(s.drop_last()) * s.last(),
                s.last() == s[j],
        ;
    } else {
        let t = s.drop_last();
        lemma_product_remove(t, j);
        assert(s.remove(j).drop_last() =~= t.remove(j));
        assert(s.remove(j).last() == s.last());
        assert(t[j] == s[j]);
        let rest = product(t.remove(j));
        assert(product(s.remove(j)) == rest * s.last());
        assert(product(s) == s[j] * product(s.remove(j))) by (nonlinear_arith)
            requires
                product(s) == product(t) * s.last(),
                product(t) == s[j] * rest,
                product(s.remove(j)) == rest * s.last(),
        ;
    }
}

/// A sequence of distinct numbers from `1..=m` has at most `m` elements, and
/// where it has `m` of them their product is `m!`.
pub proof fn lemma_distinct_product(s: Seq<int>, m: nat)
    requires
        forall|i: int| 0 <= i < s.len() ==> 1 <= #[trigger] s[i] <= m,
        forall|i: int, j: int| 0 <= i < j < s.len() ==> s[i] != s[j],
    ensures
        s.len() <= m,
        s.len() == m ==> product(s) == factorial(m),
    decreases m,
{
    if m == 0 {
        if s.len() > 0 {
            assert(1 <= s[0] <= 0);
        }
    } else if exists|j: int| 0 <= j < s.len() && s[j] == m {
        let j = choose|j: int| 0 <= j < s.len() && s[j] == m;
        let t = s.remove(j);
        assert forall|i: int| 0 <= i < t.len() implies 1 <= #[trigger] t[i] <= m - 1 by {
            if i < j {
                assert(t[i] == s[i]);
                assert(s[i] != s[j]);
            } else {
                assert(t[i] == s[i + 1]);
                assert(s[j] != s[i + 1]);
            }
        }
        assert forall|i: int, k: int| 0 <= i < k < t.len() implies t[i] != t[k] by {
            let si = if i < j { i } else { i + 1 };
            let sk = if k < j { k } else { k + 1 };
            assert(t[i] == s[si]);
            assert(t[k] == s[sk]);
            assert(s[si] != s[sk]);
        }
        lemma_distinct_product(t, (m - 1) as nat);
        lemma_product_remove(s, j);
    } else {
        assert forall|i: int| 0 <= i < s.len() implies 1 <= #[trigger] s[i] <= m - 1 by {
            assert(s[i] != m);
        }
        lemma_distinct_product(s, (m - 1) as nat);
    }
}

/// Modulo `p`, the product of the first `k` residues is `a^k * k!`.
pub proof fn lemma_residue_product(a: nat, p: nat, k: nat)
    requires
        p >= 2,
    ensures
        product(residues(a, p, k)) % (p as int) == (pow(a as int, k) * factorial(k)) % (p as int),
    decreases k,
{
    let pi = p as int;
    let ai = a as int;
    let s = residues(a, p, k);
    if k == 0 {
        lemma_pow0(ai);
        assert(pow(ai, 0) * factorial(0) == 1) by (nonlinear_arith)
            requires
                pow(ai, 0) == 1,
                factorial(0) == 1,
        ;
    } else {
        let j = (k - 1) as nat;
        let prev = residues(a, p, j);
        lemma_residue_product(a, p, j);
        assert(s.drop_last() =~= prev);
        assert(s.last() == (ai * k) % pi);
        let x = product(prev);
        let y = pow(ai, j) * factorial(j);
        assert(product(s) == x * ((ai * k) % pi));
        lemma_mul_mod_noop_general(x, ai * k, pi);
        lemma_mul_mod_noop_general(y, ai * k, pi);
        assert(product(s) % pi == (y * (ai * k)) % pi);
        lemma_pow_adds(ai, 1, j);
        lemma_pow1(ai);
        assert(y * (ai * k) == pow(ai, k) * factorial(k)) by (nonlinear_arith)
            requires
                y == pow(ai, j) * factorial(j),
                pow(ai, k) == ai * pow(ai, j),
                factorial(k) == k * factorial(j),
        ;
    }
}

/// A prime does not divide `k!` for `k` below it.
pub proof fn lemma_factorial_not_multiple(p: nat, k: nat)
    requires
        is_prime(p),
        k < p,
    ensures
        factorial(k) % (p as int) != 0,
    decreases k,
{
    let pi = p as int;
    if k == 0 {
        lemma_small_mod(1, p);
    } else {
        lemma_factorial_not_multiple(p, (k - 1) as nat);
        lemma_small_mod(k, p);
        if factorial(k) % pi == 0 {
            lemma_euclid(p, k as int, factorial((k - 1) as nat));
        }
    }
}

/// The residues of `a*1, ..., a*(p-1)` modulo a prime `p` that does not
/// divide `a` are distinct numbers from `1..=p-1`.
pub proof fn lemma_residues_distinct(a: nat, p: nat, s: Seq<int>)
    requires
        is_prime(p),
        a % p != 0,
        s == residues(a, p, (p - 1) as nat),
    ensures
        forall|i: int| 0 <= i < s.len() ==> 1 <= #[trigger] s[i] <= p - 1,
        forall|i: int, j: int| 0 <= i < j < s.len() ==> s[i] != s[j],
{
    let pi = p as int;
    let ai = a as int;
    assert forall|i: int| 0 <= i < p - 1 implies 1 <= #[trigger] s[i] <= p - 1 by {
        lemma_mod_pos_bound(ai * (i + 1), pi);
        if s[i] == 0 {
            lemma_euclid(p, ai, i + 1);
            lemma_small_mod((i + 1) as nat, p);
        }
    }
    assert forall|i: int, j: int| 0 <= i < j < p - 1 implies s[i] != s[j] by {
        if s[i] == s[j] {
            lemma_sub_mod_noop(ai * (j + 1), ai * (i + 1), pi);
            lemma_small_mod(0, p);
            assert(ai * (j + 1) - ai * (i + 1) == ai * (j - i)) by (nonlinear_arith);
            lemma_euclid(p, ai, j - i);
            lemma_small_mod((j - i) as nat, p);
        }
    }
}

/// Fermat's little theorem: `a^(p-1)` is 1 modulo a prime `p` that does not
/// divide `a`.
pub proof fn lemma_fermat(a: nat, p: nat)
    requires
        is_prime(p),
        a % p != 0,
    ensures
        pow(a as int, (p - 1) as nat) % (p as int) == 1,
{
    let pi = p as int;
    let m = (p - 1) as nat;
    let s = residues(a, p, m);
    lemma_residues_distinct(a, p, s);
    lemma_distinct_product(s, m);
    lemma_residue_product(a, p, m);
    let f = factorial(m);
    let x = pow(a as int, m);
    assert((x * f) % pi == f % pi);
    lemma_sub_mod_noop(x * f, f, pi);
    lemma_small_mod(0, p);
    assert(x * f - f == f * (x - 1)) by (nonlinear_arith);
    lemma_factorial_not_multiple(p, m);
    lemma_euclid(p, f, x - 1);
    let z = (x - 1) / pi;
    lemma_fundamental_div_mod(x - 1, pi);
    assert(x == pi * z + 1);
    lemma_mod_multiples_vanish(z, 1, pi);
    lemma_small_mod(1, p);
}

/// A number that is 1 modulo each of two distinct primes is 1 modulo their
/// product.
pub proof fn lemma_one_modulo_both(p: nat, q: nat, x: int)
    requires
        is_prime(p),
        is_prime(q),
        p != q,
        x % (p as int) == 1,
        x % (q as int) == 1,
    ensures
        x % ((p * q) as int) == 1,
{
    let pi = p as int;
    let qi = q as int;
    let k = x / pi;
    lemma_fundamental_div_mod(x, pi);
    lemma_fundamental_div_mod(x, qi);
    assert(pi * k == (x / qi) * qi) by (nonlinear_arith)
        requires
            x == pi * k + 1,
            x == qi * (x / qi) + 1,
    ;
    lemma_mod_multiples_basic(x / qi, qi);
    if p < q {
        lemma_small_mod(p, q);
    } else {
        assert((p as int) % qi != 0);
    }
    lemma_euclid(q, pi, k);
    let j = k / qi;
    lemma_fundamental_div_mod(k, qi);
    assert(x == (pi * qi) * j + 1) by (nonlinear_arith)
        requires
            x == pi * k + 1,
            k == qi * j + 0,
    ;
    assert(pi * qi >= 4) by (nonlinear_arith)
        requires
            pi >= 2,
            qi >= 2,
    ;
    lemma_mod_multiples_vanish(j, 1, pi * qi);
    lemma_small_mod(1, (p * q) as nat);
}

/// Euler's theorem for the product of two distinct primes: a number that
/// neither prime divides, raised to `(p-1)*(q-1)`, is 1 modulo `p*q`.
pub proof fn lemma_euler_two_primes(p: nat, q: nat, r: nat)
    requires
        is_prime(p),
        is_prime(q),
        p != q,
        r % p != 0,
        r % q != 0,
    ensures
        pow(r as int, ((p - 1) * (q - 1)) as nat) % ((p * q) as int) == 1,
{
    let ri = r as int;
    let e_p = (p - 1) as nat;
    let e_q = (q - 1) as nat;
    let x = pow(ri, e_p * e_q);
    assert(e_p * e_q == (p - 1) * (q - 1));
    assert(e_q * e_p == e_p * e_q) by (nonlinear_arith);
    lemma_fermat(r, p);
    lemma_fermat(r, q);
    lemma_pow_multiplies(ri, e_p, e_q);
    lemma_pow_multiplies(ri, e_q, e_p);
    lemma_pow_mod_noop(pow(ri, e_p), e_q, p as int);
    lemma_pow_mod_noop(pow(ri, e_q), e_p, q as int);
    lemma1_pow(e_q);
    lemma1_pow(e_p);
    lemma_small_mod(1, p);
    lemma_small_mod(1, q);
    assert(x % (p as int) == 1);
    assert(x % (q as int) == 1);
    lemma_one_modulo_both(p, q, x);
}

} // verus!
