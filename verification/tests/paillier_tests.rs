use paillier::{Natural, PaillierError, PrivateKey, PublicKey};
use rand::rngs::StdRng;
use rand::SeedableRng;

fn num(v: u64) -> Natural {
    Natural::from_u64(v)
}

fn value(r: Result<Natural, PaillierError>) -> u64 {
    r.expect("operation failed").to_u64().expect("value too large")
}

fn toy_keys() -> (PrivateKey, PublicKey) {
    let private_key = PrivateKey::from_primes(&num(7), &num(13)).expect("7 and 13 make a key");
    let public_key = PublicKey::new(&private_key);
    (private_key, public_key)
}

#[test]
fn natural_round_trips_through_u64() {
    for v in [0u64, 1, 91, 8281, 4294967295, 4294967296, u64::MAX] {
        assert_eq!(num(v).to_u64(), Some(v));
    }
}

#[test]
fn natural_digits_are_least_significant_first() {
    assert_eq!(Natural::from_digits(vec![0, 1]).to_u64(), Some(4294967296));
    assert_eq!(Natural::from_digits(vec![830850304, 26]).to_u64(), Some(112500000000));
    assert_eq!(Natural::from_digits(vec![]).to_u64(), Some(0));
    assert_eq!(Natural::from_digits(vec![0, 0, 1]).to_u64(), None);
    assert_eq!(num(4294967297).to_digits(), vec![1, 1]);
}

#[test]
fn natural_comparisons() {
    assert!(num(5).equals(&num(5)));
    assert!(!num(5).equals(&num(6)));
    assert!(num(5).equals(&Natural::from_digits(vec![5, 0, 0])));
    assert!(num(5).less_than(&num(6)));
    assert!(!num(6).less_than(&num(6)));
    assert!(!num(7).less_than(&num(6)));
    assert!(num(7).clone().equals(&num(7)));
}

#[test]
fn encrypt_with_gives_the_closed_form() {
    let (_, public_key) = toy_keys();
    assert_eq!(value(public_key.encrypt_with(&num(5), &num(2))), 1038);
    assert_eq!(value(public_key.encrypt_with(&num(20), &num(3))), 5099);
    assert_eq!(value(public_key.encrypt_with(&num(80), &num(5))), 8146);
    assert_eq!(value(public_key.encrypt_with(&num(0), &num(1))), 1);
}

#[test]
fn toy_key_round_trip_for_every_plaintext() {
    let (private_key, public_key) = toy_keys();
    for m in 0..91u64 {
        for r in [1u64, 2, 3, 5, 90] {
            let c = public_key.encrypt_with(&num(m), &num(r)).expect("in range");
            assert_eq!(value(private_key.decrypt(&c)), m);
        }
    }
}

#[test]
fn toy_key_addition() {
    let (private_key, public_key) = toy_keys();
    let a = public_key.encrypt_with(&num(5), &num(2)).unwrap();
    let b = public_key.encrypt_with(&num(20), &num(3)).unwrap();
    let sum = public_key.add_encrypted(&a, &b).unwrap();
    assert_eq!(sum.to_u64(), Some(1203));
    assert_eq!(value(private_key.decrypt(&sum)), 25);
}

#[test]
fn toy_key_addition_wraps_around() {
    let (private_key, public_key) = toy_keys();
    let a = public_key.encrypt_with(&num(80), &num(5)).unwrap();
    let b = public_key.encrypt_with(&num(20), &num(3)).unwrap();
    let sum = public_key.add_encrypted(&a, &b).unwrap();
    assert_eq!(value(private_key.decrypt(&sum)), 9);
}

#[test]
fn toy_key_scaling() {
    let (private_key, public_key) = toy_keys();
    let a = public_key.encrypt_with(&num(5), &num(2)).unwrap();
    let scaled = public_key.mul_encrypted(&a, &num(3)).unwrap();
    assert_eq!(scaled.to_u64(), Some(4698));
    assert_eq!(value(private_key.decrypt(&scaled)), 15);
}

#[test]
fn addition_law_on_toy_key() {
    let (private_key, public_key) = toy_keys();
    for a in [0u64, 1, 45, 90] {
        for b in [0u64, 1, 46, 90] {
            let ca = public_key.encrypt_with(&num(a), &num(4)).unwrap();
            let cb = public_key.encrypt_with(&num(b), &num(9)).unwrap();
            let sum = public_key.add_encrypted(&ca, &cb).unwrap();
            assert_eq!(value(private_key.decrypt(&sum)), (a + b) % 91);
        }
    }
}

#[test]
fn scaling_law_on_toy_key() {
    let (private_key, public_key) = toy_keys();
    for a in [0u64, 1, 45, 90] {
        for k in [1u64, 2, 3, 10, 90] {
            let ca = public_key.encrypt_with(&num(a), &num(4)).unwrap();
            let scaled = public_key.mul_encrypted(&ca, &num(k)).unwrap();
            assert_eq!(value(private_key.decrypt(&scaled)), (a * k) % 91);
        }
    }
}

#[test]
fn plaintext_out_of_range_is_rejected() {
    let (_, public_key) = toy_keys();
    let mut rng = StdRng::seed_from_u64(1);
    for m in [91u64, 92, 8281, u64::MAX] {
        assert_eq!(
            public_key.encrypt_with(&num(m), &num(2)).err(),
            Some(PaillierError::PlaintextOutOfRange)
        );
        assert_eq!(
            public_key.encrypt(&num(m), &mut rng).err(),
            Some(PaillierError::PlaintextOutOfRange)
        );
    }
    assert!(public_key.encrypt_with(&num(90), &num(2)).is_ok());
}

#[test]
fn zero_ciphertext_is_rejected() {
    let (private_key, _) = toy_keys();
    assert_eq!(private_key.decrypt(&num(0)).err(), Some(PaillierError::InvalidCiphertext));
}

#[test]
fn ciphertext_sharing_a_factor_is_rejected() {
    let (private_key, public_key) = toy_keys();
    let good = public_key.encrypt_with(&num(5), &num(2)).unwrap();
    for bad in [0u64, 7, 13, 91, 3087, 8281] {
        assert_eq!(private_key.decrypt(&num(bad)).err(), Some(PaillierError::InvalidCiphertext));
        assert_eq!(
            public_key.add_encrypted(&good, &num(bad)).err(),
            Some(PaillierError::InvalidCiphertext)
        );
        assert_eq!(
            public_key.add_encrypted(&num(bad), &good).err(),
            Some(PaillierError::InvalidCiphertext)
        );
        assert_eq!(
            public_key.mul_encrypted(&num(bad), &num(3)).err(),
            Some(PaillierError::InvalidCiphertext)
        );
    }
}

#[test]
fn inexact_division_is_rejected() {
    // 9 is no prime: 2 is coprime to 45^2, but 2^32 is 31 modulo 45, not 1.
    let private_key = PrivateKey::from_primes(&num(9), &num(5)).expect("9 and 5 pass the checks");
    assert_eq!(private_key.decrypt(&num(2)).err(), Some(PaillierError::InvalidCiphertext));
}

#[test]
fn blinding_value_sharing_a_factor_gives_an_invalid_ciphertext() {
    let (private_key, public_key) = toy_keys();
    let c = public_key.encrypt_with(&num(5), &num(7)).unwrap();
    assert_eq!(c.to_u64(), Some(3087));
    assert_eq!(private_key.decrypt(&c).err(), Some(PaillierError::InvalidCiphertext));
}

#[test]
fn scaling_factor_sharing_a_factor_is_rejected() {
    let (_, public_key) = toy_keys();
    let good = public_key.encrypt_with(&num(5), &num(2)).unwrap();
    for k in [0u64, 7, 13, 91] {
        assert_eq!(
            public_key.mul_encrypted(&good, &num(k)).err(),
            Some(PaillierError::InvalidCiphertext)
        );
    }
}

#[test]
fn unusable_factors_give_no_key() {
    assert!(PrivateKey::from_primes(&num(7), &num(7)).is_none());
    assert!(PrivateKey::from_primes(&num(0), &num(7)).is_none());
    assert!(PrivateKey::from_primes(&num(7), &num(0)).is_none());
    assert!(PrivateKey::from_primes(&num(0), &num(1)).is_none());
    assert!(PrivateKey::from_primes(&num(1), &num(7)).is_none());
    // (3 - 1) * (7 - 1) = 12 shares the factor 3 with 21.
    assert!(PrivateKey::from_primes(&num(3), &num(7)).is_none());
    assert!(PrivateKey::from_primes(&num(13), &num(7)).is_some());
}

#[test]
fn generated_key_round_trip() {
    let mut rng = StdRng::seed_from_u64(7);
    let private_key = PrivateKey::new(64, &mut rng).expect("a key is found");
    let public_key = PublicKey::new(&private_key);
    for m in [0u64, 1, 5, 1_000_000, u64::MAX] {
        let c = public_key.encrypt(&num(m), &mut rng).expect("in range");
        assert_eq!(value(private_key.decrypt(&c)), m);
    }
}

#[test]
fn generated_key_homomorphisms() {
    let mut rng = StdRng::seed_from_u64(11);
    let private_key = PrivateKey::new(48, &mut rng).expect("a key is found");
    let public_key = PublicKey::new(&private_key);
    let a = public_key.encrypt(&num(1234), &mut rng).unwrap();
    let b = public_key.encrypt(&num(4321), &mut rng).unwrap();
    let sum = public_key.add_encrypted(&a, &b).unwrap();
    assert_eq!(value(private_key.decrypt(&sum)), 5555);
    let scaled = public_key.mul_encrypted(&a, &num(5)).unwrap();
    assert_eq!(value(private_key.decrypt(&scaled)), 6170);
}

#[test]
fn encryption_is_randomized() {
    let mut rng = StdRng::seed_from_u64(3);
    let private_key = PrivateKey::new(64, &mut rng).expect("a key is found");
    let public_key = PublicKey::new(&private_key);
    let first = public_key.encrypt(&num(42), &mut rng).unwrap();
    let second = public_key.encrypt(&num(42), &mut rng).unwrap();
    assert!(!first.equals(&second));
    assert_eq!(value(private_key.decrypt(&first)), 42);
    assert_eq!(value(private_key.decrypt(&second)), 42);
}
