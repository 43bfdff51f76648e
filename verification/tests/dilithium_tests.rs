//! Dilithium polynomial tests against a plain modular-arithmetic
//! reference with an independently generated twiddle table.

use crystals::poly_dilithium::DilithiumPoly;
use crystals::polyvec::DilithiumPolyVec;
use crystals::fq_dilithium::dilithium_fqmul;
use rand::Rng;
use rand::RngCore;
use digest::{ExtendableOutput, Update, XofReader};

const Q: i64 = 8380417;

fn pmod(x: i64) -> i64 {
    x.rem_euclid(Q)
}

fn powmod(mut b: i64, mut e: i64) -> i64 {
    let mut r: i64 = 1;
    b = pmod(b);
    while e > 0 {
        if e & 1 == 1 {
            r = pmod(r * b);
        }
        b = pmod(b * b);
        e >>= 1;
    }
    r
}

fn brv8(k: usize) -> usize {
    let mut r = 0;
    for b in 0..8 {
        r |= ((k >> b) & 1) << (7 - b);
    }
    r
}

fn plain_zetas() -> Vec<i64> {
    (0..256).map(|k| powmod(1753, brv8(k) as i64)).collect()
}

fn ref_ntt(c: &mut [i64; 256]) {
    let z = plain_zetas();
    let mut k = 1;
    let mut len = 128;
    while len >= 1 {
        let mut start = 0;
        while start < 256 {
            let zeta = z[k];
            k += 1;
            for j in start..start + len {
                let t = pmod(zeta * c[j + len]);
                c[j + len] = pmod(c[j] - t);
                c[j] = pmod(c[j] + t);
            }
            start += 2 * len;
        }
        if len == 1 {
            break;
        }
        len /= 2;
    }
}

fn ref_invntt(c: &mut [i64; 256]) {
    let z = plain_zetas();
    let mut len = 1;
    let mut k_top = 255;
    while len <= 128 {
        let groups = 256 / (2 * len);
        for g in 0..groups {
            let start = g * 2 * len;
            let zeta = z[k_top - g];
            for j in start..start + len {
                let u = c[j];
                let v = c[j + len];
                c[j] = pmod(u + v);
                c[j + len] = pmod((v - u) * zeta);
            }
        }
        k_top -= groups;
        len *= 2;
    }
    // The library's scale constant carries one Montgomery factor; match
    // it in plain arithmetic.
    let r_inv = powmod(powmod(2, 32), Q - 2);
    let scale = pmod(41978 * r_inv);
    for x in c.iter_mut() {
        *x = pmod(*x * scale);
    }
}

fn random_poly(rng: &mut impl Rng) -> DilithiumPoly {
    let mut a = [0i32; 256];
    for x in a.iter_mut() {
        *x = rng.gen_range(-(Q as i32) / 2..=(Q as i32) / 2);
    }
    DilithiumPoly::from_array(a)
}

fn poly_canon(p: &DilithiumPoly) -> [i64; 256] {
    let a = p.into_array();
    let mut out = [0i64; 256];
    for i in 0..256 {
        out[i] = pmod(a[i] as i64);
    }
    out
}

#[test]
fn dilithium_test_ntt_and_then_invtt() {
    let mut rng = rand::thread_rng();
    for testcase in 0..1_000 {
        let poly = random_poly(&mut rng);
        let poly_copy = poly.into_array();
        let mut p = poly;
        p.ntt();
        p.reduce();
        p.inv_ntt();
        let mut arr = p.into_array();
        for f in arr.iter_mut() {
            *f = dilithium_fqmul(*f, 1);
        }
        assert_eq!(arr, poly_copy, "failed testcase #{}", testcase);
    }
}

#[test]
fn dilithium_test_ntt_vs_ref() {
    let mut rng = rand::thread_rng();
    for _ in 0..1_000 {
        let poly = random_poly(&mut rng);
        let mut p = poly_canon(&poly);
        ref_ntt(&mut p);

        let mut mine = poly;
        mine.ntt();
        mine.reduce();
        assert_eq!(poly_canon(&mine), p);
    }
}

#[test]
fn dilithium_test_invntt_vs_ref() {
    let mut rng = rand::thread_rng();
    for _ in 0..1_000 {
        let poly = random_poly(&mut rng);
        let mut p = poly_canon(&poly);
        ref_invntt(&mut p);

        let mut mine = poly;
        mine.inv_ntt();
        mine.reduce();
        assert_eq!(poly_canon(&mine), p);
    }
}

#[test]
fn dilithium_pointwise_vs_ref() {
    let mut rng = rand::thread_rng();
    let r_inv = powmod(powmod(2, 32), Q - 2);
    for _ in 0..1_000 {
        let a = random_poly(&mut rng);
        let b = random_poly(&mut rng);
        let mut r = DilithiumPoly::new();
        a.pointwise(&b, &mut r);
        let (pa, pb, pr) = (poly_canon(&a), poly_canon(&b), poly_canon(&r));
        for i in 0..256 {
            assert_eq!(pr[i], pmod(pmod(pa[i] * pb[i]) * r_inv));
        }
    }
}

#[test]
fn dilithium_poly_uniform() {
    let mut poly = DilithiumPoly::new();
    let mut rng = rand::thread_rng();
    let mut seed = [0u8; 32];
    const N_TESTS: usize = 200;

    for _ in 0..N_TESTS {
        rng.fill(&mut seed);
        let i: u8 = rand::random();
        let j: u8 = rand::random();

        poly.uniform(&seed, i, j);

        // Reference: rejection-sample 23-bit candidates from the
        // SHAKE128 stream of seed || i || j.
        let mut absorbed = [0u8; 34];
        absorbed[..32].copy_from_slice(&seed);
        absorbed[32] = i;
        absorbed[33] = j;
        let mut shake = sha3::Shake128::default();
        shake.update(&absorbed);
        let mut reader = shake.finalize_xof();
        let mut stream = [0u8; 168];
        let mut out = [0i32; 256];
        let mut ctr = 0;
        while ctr < 256 {
            reader.read(&mut stream);
            for chunk in stream.chunks_exact(3) {
                if ctr == 256 {
                    break;
                }
                let t = (chunk[0] as u32 | (chunk[1] as u32) << 8 | (chunk[2] as u32) << 16)
                    & 0x7FFFFF;
                if (t as i64) < Q {
                    out[ctr] = t as i32;
                    ctr += 1;
                }
            }
        }
        assert_eq!(poly.into_array(), out, "i:{} j:{} seed:{:?}", i, j, seed);
    }
}

#[test]
fn dilithium_polyvec_componentwise() {
    let mut rng = rand::thread_rng();
    let mut pv = DilithiumPolyVec::<4>::new();
    let mut polys = Vec::new();
    for i in 0..4 {
        let p = random_poly(&mut rng);
        pv.set_poly(i, p);
        polys.push(p);
    }
    pv.ntt();
    pv.reduce();
    pv.inv_ntt();
    for i in 0..4 {
        let mut q = polys[i];
        q.ntt();
        q.reduce();
        q.inv_ntt();
        assert_eq!(pv.poly_at(i).into_array(), q.into_array());
    }
}
