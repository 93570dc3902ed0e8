//! Private and public keys, and the operations of the cryptosystem.

use rand::CryptoRng;
use rand::Rng;
use vstd::prelude::*;

use crate::arith::{
    add_spec, coprime_to_square, decrypt_spec, encrypt_spec, scale_spec, unblinded,
    usable_factors,
};
use crate::natural::{
    big_add, big_div_rem, big_eq, big_gcd, big_invm, big_lt, big_modpow, big_mul, big_rem,
    big_sub, random_in_range, random_prime, Natural,
};

verus! {

/// Why an operation refused its input.
#[derive(Debug, Clone, Copy, PartialEq, Eq, Structural)]
pub enum PaillierError {
    /// The plaintext is not below the modulus.
    PlaintextOutOfRange,
    /// The ciphertext shares a factor with the squared modulus, or does not
    /// decrypt to a whole number.
    InvalidCiphertext,
}

/// The secret half of a key pair. The two factors of the modulus are not
/// kept; the contracts remember them.
pub struct PrivateKey {
    n: Natural,
    n_2: Natural,
    lambda: Natural,
    mu: Natural,
    factors: Ghost<(nat, nat)>,
}

/// The public half of a key pair. The generator is always `n + 1`.
pub struct PublicKey {
    n: Natural,
    n_2: Natural,
}

impl PrivateKey {
    /// The modulus.
    pub closed spec fn modulus(&self) -> nat {
        self.n@
    }

    /// The square of the modulus, as stored.
    pub closed spec fn modulus_squared(&self) -> nat {
        self.n_2@
    }

    /// The decryption exponent.
    pub closed spec fn lambda(&self) -> nat {
        self.lambda@
    }

    /// The inverse of the decryption exponent modulo the modulus.
    pub closed spec fn mu(&self) -> nat {
        self.mu@
    }

    /// The two factors that the modulus was made of.
    pub closed spec fn factors(&self) -> (nat, nat) {
        self.factors@
    }

    /// The invariant of a private key: the modulus is the product of two
    /// distinct factors `p` and `q`, the exponent is `(p-1)*(q-1)` and coprime
    /// to the modulus, and `mu` is the inverse of the exponent.
    pub open spec fn wf(&self) -> bool {
        &&& usable_factors(self.factors().0, self.factors().1)
        &&& self.modulus() == self.factors().0 * self.factors().1
        &&& self.lambda() == self.modulus() + 1 - self.factors().0 - self.factors().1
        &&& self.modulus() >= 2
        &&& self.modulus_squared() == self.modulus() * self.modulus()
        &&& 0 < self.mu() < self.modulus()
        &&& (self.lambda() * self.mu()) % self.modulus() == 1
    }

    /// Assembles the key of the factors `p` and `q`, which are meant to be
    /// distinct primes. There is no key where they are equal, where one of
    /// them is zero, or where `(p-1)*(q-1)` has no inverse modulo `p*q`.
    pub fn from_primes(p: &Natural, q: &Natural) -> (r: Option<PrivateKey>)
        ensures
            r is Some <==> usable_factors(p@, q@),
            r matches Some(key) ==> key.wf() && key.factors() == (p@, q@),
    {
        let zero = Natural::from_u64(0);
        let one = Natural::from_u64(1);
        if big_eq(p, &zero) || big_eq(q, &zero) || big_eq(p, q) {
            return None;
        }
        let n = big_mul(p, q);
        let n_plus_1 = big_add(&n, &one);
        proof {
            assert(p@ * q@ + 1 >= p@ + q@ && p@ * q@ >= 2) by (nonlinear_arith)
                requires
                    p@ >= 1,
                    q@ >= 1,
                    p@ != q@,
            ;
        }
        let without_p = big_sub(&n_plus_1, p);
        let lambda = big_sub(&without_p, q);
        match big_invm(&lambda, &n) {
            Some(mu) => {
                let n_2 = big_mul(&n, &n);
                proof {
                    vstd::arithmetic::div_mod::lemma_small_mod(1, n@);
                    if mu@ == 0 {
                        assert(lambda@ * mu@ == 0) by (nonlinear_arith)
                            requires
                                mu@ == 0,
                        ;
                        vstd::arithmetic::div_mod::lemma_small_mod(0, n@);
                    }
                }
                Some(PrivateKey { n, n_2, lambda, mu, factors: Ghost((p@, q@)) })
            },
            None => None,
        }
    }

    /// Draws pairs of random primes of `bit_size` bits until one pair yields a
    /// key. Every draw is overwhelmingly likely to succeed; the search gives up
    /// with `None` only after `u64::MAX` failed draws.
    pub fn new<R: Rng + CryptoRng>(bit_size: usize, rng: &mut R) -> (r: Option<PrivateKey>)
        requires
            bit_size > 0,
        ensures
            r matches Some(key) ==> key.wf(),
    {
        let mut draws_left: u64 = u64::MAX;
        while draws_left > 0
            invariant
                bit_size > 0,
            decreases draws_left,
        {
            draws_left = draws_left - 1;
            let p = random_prime(rng, bit_size);
            let q = random_prime(rng, bit_size);
            let attempt = PrivateKey::from_primes(&p, &q);
            if attempt.is_some() {
                return attempt;
            }
        }
        None
    }

    /// Recovers the plaintext of `c`. Fails with `InvalidCiphertext` where `c`
    /// shares a factor with the squared modulus, or where `c^lambda mod n^2`
    /// is not one more than a multiple of `n`.
    pub fn decrypt(&self, c: &Natural) -> (r: Result<Natural, PaillierError>)
        requires
            self.wf(),
        ensures
            match r {
                Ok(m) => m@ < self.modulus() && decrypt_spec(
                    self.modulus(),
                    self.lambda(),
                    self.mu(),
                    c@,
                ) == Some(m@),
                Err(e) => e == PaillierError::InvalidCiphertext && decrypt_spec(
                    self.modulus(),
                    self.lambda(),
                    self.mu(),
                    c@,
                ) is None,
            },
    {
        let zero = Natural::from_u64(0);
        let one = Natural::from_u64(1);
        let common = big_gcd(c, &self.n_2);
        if !big_eq(&common, &one) {
            return Err(PaillierError::InvalidCiphertext);
        }
        proof {
            assert(self.n@ * self.n@ >= 4) by (nonlinear_arith)
                requires
                    self.n@ >= 2,
            ;
        }
        let u = big_modpow(c, &self.lambda, &self.n_2);
        let ghost n = self.n@ as int;
        assert(u@ == unblinded(self.modulus(), self.lambda(), c@));
        if big_eq(&u, &zero) {
            proof {
                assert((0 - 1) % n == n - 1) by {
                    vstd::arithmetic::div_mod::lemma_fundamental_div_mod_converse(-1, n, -1, n - 1);
                }
            }
            return Err(PaillierError::InvalidCiphertext);
        }
        let u_minus_1 = big_sub(&u, &one);
        let (quotient, remainder) = big_div_rem(&u_minus_1, &self.n);
        if !big_eq(&remainder, &zero) {
            return Err(PaillierError::InvalidCiphertext);
        }
        let scaled = big_mul(&quotient, &self.mu);
        Ok(big_rem(&scaled, &self.n))
    }
}

impl PublicKey {
    /// The modulus.
    pub closed spec fn modulus(&self) -> nat {
        self.n@
    }

    /// The square of the modulus, as stored.
    pub closed spec fn modulus_squared(&self) -> nat {
        self.n_2@
    }

    /// The invariant of a public key.
    pub open spec fn wf(&self) -> bool {
        &&& self.modulus() >= 2
        &&& self.modulus_squared() == self.modulus() * self.modulus()
    }

    /// The public key that belongs to `private_key`: the same modulus and the
    /// same square.
    pub fn new(private_key: &PrivateKey) -> (r: PublicKey)
        ensures
            r.modulus() == private_key.modulus(),
            r.modulus_squared() == private_key.modulus_squared(),
            private_key.wf() ==> r.wf(),
    {
        PublicKey { n: private_key.n.clone(), n_2: private_key.n_2.clone() }
    }

    /// Encrypts `m` with the blinding value `r`. Fails with
    /// `PlaintextOutOfRange` where `m` is not below the modulus.
    pub fn encrypt_with(&self, m: &Natural, r: &Natural) -> (c: Result<Natural, PaillierError>)
        requires
            self.wf(),
        ensures
            match c {
                Ok(c) => {
                    &&& m@ < self.modulus()
                    &&& c@ == encrypt_spec(self.modulus(), m@, r@)
                    &&& c@ < self.modulus_squared()
                },
                Err(e) => e == PaillierError::PlaintextOutOfRange && m@ >= self.modulus(),
            },
    {
        if !big_lt(m, &self.n) {
            return Err(PaillierError::PlaintextOutOfRange);
        }
        proof {
            assert(self.n@ * self.n@ >= 4) by (nonlinear_arith)
                requires
                    self.n@ >= 2,
            ;
        }
        let one = Natural::from_u64(1);
        let r_n = big_modpow(r, &self.n, &self.n_2);
        let n_m = big_mul(&self.n, m);
        let n_m_1 = big_add(&n_m, &one);
        let g_m = big_rem(&n_m_1, &self.n_2);
        let product = big_mul(&g_m, &r_n);
        Ok(big_rem(&product, &self.n_2))
    }

    /// Encrypts `m` with a blinding value drawn from `[1, n)`. Fails with
    /// `PlaintextOutOfRange` where `m` is not below the modulus.
    pub fn encrypt<R: Rng + CryptoRng>(&self, m: &Natural, rng: R) -> (c: Result<
        Natural,
        PaillierError,
    >)
        requires
            self.wf(),
        ensures
            match c {
                Ok(c) => {
                    &&& m@ < self.modulus()
                    &&& c@ < self.modulus_squared()
                    &&& exists|r: nat|
                        1 <= r < self.modulus() && c@ == #[trigger] encrypt_spec(
                            self.modulus(),
                            m@,
                            r,
                        )
                },
                Err(e) => e == PaillierError::PlaintextOutOfRange && m@ >= self.modulus(),
            },
    {
        if !big_lt(m, &self.n) {
            return Err(PaillierError::PlaintextOutOfRange);
        }
        let one = Natural::from_u64(1);
        let mut rng = rng;
        let r = random_in_range(&mut rng, &one, &self.n);
        self.encrypt_with(m, &r)
    }

    /// Combines two ciphertexts into one of the sum of their plaintexts. Fails
    /// with `InvalidCiphertext` where either shares a factor with the squared
    /// modulus.
    pub fn add_encrypted(&self, lhs: &Natural, rhs: &Natural) -> (r: Result<
        Natural,
        PaillierError,
    >)
        requires
            self.wf(),
        ensures
            match r {
                Ok(c) => {
                    &&& coprime_to_square(self.modulus(), lhs@)
                    &&& coprime_to_square(self.modulus(), rhs@)
                    &&& c@ == add_spec(self.modulus(), lhs@, rhs@)
                    &&& c@ < self.modulus_squared()
                },
                Err(e) => e == PaillierError::InvalidCiphertext && !(coprime_to_square(
                    self.modulus(),
                    lhs@,
                ) && coprime_to_square(self.modulus(), rhs@)),
            },
    {
        let one = Natural::from_u64(1);
        if !big_eq(&big_gcd(lhs, &self.n_2), &one) {
            return Err(PaillierError::InvalidCiphertext);
        }
        if !big_eq(&big_gcd(rhs, &self.n_2), &one) {
            return Err(PaillierError::InvalidCiphertext);
        }
        proof {
            assert(self.n@ * self.n@ >= 4) by (nonlinear_arith)
                requires
                    self.n@ >= 2,
            ;
        }
        let product = big_mul(lhs, rhs);
        Ok(big_rem(&product, &self.n_2))
    }

    /// Turns a ciphertext into one of its plaintext times `k`. Fails with
    /// `InvalidCiphertext` where the ciphertext or the factor `k` shares a
    /// factor with the squared modulus.
    pub fn mul_encrypted(&self, lhs: &Natural, k: &Natural) -> (r: Result<Natural, PaillierError>)
        requires
            self.wf(),
        ensures
            match r {
                Ok(c) => {
                    &&& coprime_to_square(self.modulus(), lhs@)
                    &&& coprime_to_square(self.modulus(), k@)
                    &&& c@ == scale_spec(self.modulus(), lhs@, k@)
                    &&& c@ < self.modulus_squared()
                },
                Err(e) => e == PaillierError::InvalidCiphertext && !(coprime_to_square(
                    self.modulus(),
                    lhs@,
                ) && coprime_to_square(self.modulus(), k@)),
            },
    {
        let one = Natural::from_u64(1);
        if !big_eq(&big_gcd(lhs, &self.n_2), &one) {
            return Err(PaillierError::InvalidCiphertext);
        }
        if !big_eq(&big_gcd(k, &self.n_2), &one) {
            return Err(PaillierError::InvalidCiphertext);
        }
        proof {
            assert(self.n@ * self.n@ >= 4) by (nonlinear_arith)
                requires
                    self.n@ >= 2,
            ;
        }
        Ok(big_modpow(lhs, k, &self.n_2))
    }
}

} // verus!
