//! The Paillier public-key cryptosystem: key generation, encryption,
//! decryption and the two homomorphic operations on ciphertexts.
//!
//! Numbers are [`Natural`] values, whose view is a mathematical natural
//! number. All big-number arithmetic is delegated to `num-bigint` and its
//! companions through a small set of trusted functions; the rules of the
//! cryptosystem built on top of them are verified.

pub mod arith;
pub mod keys;
pub mod laws;
pub mod natural;
pub mod numtheory;
pub mod primes;

pub use keys::{PaillierError, PrivateKey, PublicKey};
pub use natural::Natural;
