//! Matrix expansion against an independent SHAKE128, and the
//! deterministic byte queue.

use crystals::polymat::KyberMatrix;
use crystals::randombytes::{
    get_random_bytes, randombytes_from_queue, randombytes_push_bytes, randombytes_push_to_queue,
    BufferRng,
};
use digest::{ExtendableOutput, Update, XofReader};
use rand::Rng;

const Q: i64 = 3329;

fn ref_uniform(seed: &[u8; 32], n1: u8, n2: u8) -> [i16; 256] {
    let mut absorbed = [0u8; 34];
    absorbed[..32].copy_from_slice(seed);
    absorbed[32] = n1;
    absorbed[33] = n2;
    let mut shake = sha3::Shake128::default();
    shake.update(&absorbed);
    let mut reader = shake.finalize_xof();
    let mut block = [0u8; 168];
    let mut out = [0i16; 256];
    let mut ctr = 0;
    while ctr < 256 {
        reader.read(&mut block);
        for chunk in block.chunks_exact(3) {
            let v0 = (chunk[0] as i64 | (chunk[1] as i64) << 8) & 0xFFF;
            if ctr < 256 && v0 < Q {
                out[ctr] = v0 as i16;
                ctr += 1;
            }
            let v1 = ((chunk[1] >> 4) as i64 | (chunk[2] as i64) << 4) & 0xFFF;
            if ctr < 256 && v1 < Q {
                out[ctr] = v1 as i16;
                ctr += 1;
            }
        }
    }
    out
}

fn gen_matrix_x<const K: usize, const TRANSPOSED: bool>() {
    let mut seed = [0u8; 32];
    let mut rng = rand::thread_rng();
    const NUM_TESTS: usize = 30;

    for _ in 0..NUM_TESTS {
        rng.fill(&mut seed);
        let a = KyberMatrix::<K>::gen_matrix::<TRANSPOSED>(&seed);
        for i in 0..K {
            for j in 0..K {
                let expected = if TRANSPOSED {
                    ref_uniform(&seed, i as u8, j as u8)
                } else {
                    ref_uniform(&seed, j as u8, i as u8)
                };
                assert_eq!(
                    a.row(i).poly_at(j).into_array(),
                    expected,
                    "i={}, j={}",
                    i,
                    j
                );
            }
        }
    }
}

#[test]
fn gen_matrix() {
    gen_matrix_x::<2, true>();
    gen_matrix_x::<3, true>();
    gen_matrix_x::<4, true>();
    gen_matrix_x::<2, false>();
    gen_matrix_x::<3, false>();
    gen_matrix_x::<4, false>();
}

#[test]
fn gen_a_and_gen_at_are_the_two_orientations() {
    let seed = [7u8; 32];
    let a = KyberMatrix::<2>::gen_a(&seed);
    let at = KyberMatrix::<2>::gen_at(&seed);
    for i in 0..2 {
        for j in 0..2 {
            assert_eq!(
                a.row(i).poly_at(j).into_array(),
                at.row(j).poly_at(i).into_array()
            );
        }
    }
}

#[test]
fn queue_returns_bytes_in_order() {
    let mut q = BufferRng::new();
    randombytes_push_to_queue(&mut q, &[1, 2, 3, 4, 5]);
    randombytes_push_bytes(&mut q, &[6, 7, 8]);
    assert_eq!(q.remaining(), 8);
    let mut out = [0u8; 5];
    randombytes_from_queue(&mut q, &mut out);
    assert_eq!(out, [1, 2, 3, 4, 5]);
    let mut rest = [0u8; 3];
    randombytes_from_queue(&mut q, &mut rest);
    assert_eq!(rest, [6, 7, 8]);
    assert_eq!(q.remaining(), 0);
}

#[test]
fn queue_reports_exhaustion() {
    let mut q = BufferRng::default();
    randombytes_push_bytes(&mut q, &[9, 9]);
    let mut out = [0u8; 4];
    assert!(!get_random_bytes(&mut q, &mut out));
    assert_eq!(q.remaining(), 2);
    let mut out2 = [0u8; 2];
    assert!(get_random_bytes(&mut q, &mut out2));
    assert_eq!(out2, [9, 9]);
    q.reset();
    assert_eq!(q.remaining(), 0);
}
