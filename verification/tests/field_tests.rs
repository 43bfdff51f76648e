//! Scalar field arithmetic tests for both primes.

use crystals::fq_dilithium::{dilithium_fqmul, freeze, DILITHIUM_MONT, DILITHIUM_Q};
use crystals::fq_kyber::{barrett_reduce, MONT, MONT_SQUARED, QINV};
use crystals::utils::invm;
use crystals::{caddq, fqmul, KYBER_Q};
use rand::Rng;

const NUM_TESTS: usize = 1_000_000;

#[test]
fn q_inv_test() {
    let x = invm(KYBER_Q as u64, 1 << 16).unwrap();
    assert_eq!(QINV as i64, x.rem_euclid(1 << 16) - (1 << 16));
}

#[test]
fn test_barrett_reduce() {
    for _ in 0..NUM_TESTS {
        let x: i16 = rand::random();
        let br = barrett_reduce(x);
        assert!(-KYBER_Q / 2 <= br && br <= KYBER_Q / 2);
        assert_eq!(
            (br + KYBER_Q) % KYBER_Q,
            x.rem_euclid(KYBER_Q),
            "barrett_reduce failed for {}",
            x
        );
    }
}

#[test]
fn kyber_test_fqmul() {
    for _ in 0..NUM_TESTS {
        let x: i16 = rand::random();
        let y = rand::random();
        let z_mont = fqmul(x, y);
        let z = (z_mont as i32 * MONT as i32).rem_euclid(KYBER_Q as i32) as i16;
        let z_bar = fqmul(z_mont, MONT_SQUARED);
        assert_eq!(z_bar.rem_euclid(KYBER_Q), z);
        assert_eq!(
            z,
            (x as i32 * y as i32).rem_euclid(KYBER_Q as i32) as i16,
            "fqmul failed for {:?} \n z_mont = {}, z = {}",
            (x, y),
            z_mont,
            z
        );
    }
}

#[test]
fn test_reduce() {
    let mut rng = rand::thread_rng();
    for _ in 0..NUM_TESTS {
        let x: i32 = rng.gen_range(i32::MIN..=i32::MAX - (1 << 22));
        let br = freeze(x);
        assert!(0 <= br && br < DILITHIUM_Q);
        assert_eq!(
            br % DILITHIUM_Q,
            x.rem_euclid(DILITHIUM_Q),
            "reduce failed for {}",
            x
        );
    }
}

#[test]
fn dilithium_test_fqmul() {
    let mut rng = rand::thread_rng();
    const MONT_SQUARED_D: i32 = ((DILITHIUM_MONT as i64).pow(2) % DILITHIUM_Q as i64) as i32;
    for _ in 0..NUM_TESTS {
        let x = rng.gen_range(-DILITHIUM_Q..=DILITHIUM_Q);
        let y = rng.gen_range(-DILITHIUM_Q..=DILITHIUM_Q);
        let z_mont = dilithium_fqmul(x, y);
        let z = (z_mont as i64 * DILITHIUM_MONT as i64).rem_euclid(DILITHIUM_Q as i64) as i32;
        let z_bar = dilithium_fqmul(z_mont, MONT_SQUARED_D);
        assert_eq!(z_bar.rem_euclid(DILITHIUM_Q), z);
        assert_eq!(
            z,
            (x as i64 * y as i64).rem_euclid(DILITHIUM_Q as i64) as i32,
            "fqmul failed for {:?} \n z_mont = {}, z = {}",
            (x, y),
            z_mont,
            z
        );
    }
}

#[test]
fn caddq_adds_q_only_to_negatives() {
    for x in [-3328i16, -1664, -1, 0, 1, 1664, 3328] {
        let r = caddq(x);
        if x < 0 {
            assert_eq!(r, x + KYBER_Q);
        } else {
            assert_eq!(r, x);
        }
    }
}

#[test]
fn invm_finds_inverses() {
    for (a, m) in [(3329u64, 65536u64), (17, 3329), (2285, 3329), (5, 7)] {
        let x = invm(a, m).unwrap();
        assert_eq!(((a as i64 * x).rem_euclid(m as i64)), 1);
    }
    assert!(invm(2, 4).is_none());
}
