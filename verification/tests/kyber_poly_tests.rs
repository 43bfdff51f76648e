//! Kyber polynomial tests: the transform, sampling and codec layers are
//! cross-checked against a plain modular-arithmetic reference that uses
//! an independently generated twiddle table, and against the byte-level
//! packing formulas of the reference implementation.

use crystals::fips202::Shake256;
use crystals::poly_kyber::KyberPoly;
use crystals::polyvec::KyberPolyVec;
use crystals::fqmul;
use rand::Rng;
use rand::RngCore;
use digest::{ExtendableOutput, Update, XofReader};

const Q: i64 = 3329;

fn pmod(x: i64) -> i64 {
    x.rem_euclid(Q)
}

fn powmod(mut b: i64, mut e: i64) -> i64 {
    let mut r: i64 = 1;
    b = pmod(b);
    while e > 0 {
        if e & 1 == 1 {
            r = pmod(r * b);
        }
        b = pmod(b * b);
        e >>= 1;
    }
    r
}

fn brv7(k: usize) -> usize {
    let mut r = 0;
    for b in 0..7 {
        r |= ((k >> b) & 1) << (6 - b);
    }
    r
}

/// The plain twiddle table: 17^brv7(k) mod q.
fn plain_zetas() -> [i64; 128] {
    let mut z = [0i64; 128];
    for k in 0..128 {
        z[k] = powmod(17, brv7(k) as i64);
    }
    z
}

fn ref_ntt(c: &mut [i64; 256]) {
    let z = plain_zetas();
    let mut k = 1;
    let mut len = 128;
    while len >= 2 {
        let mut start = 0;
        while start < 256 {
            let zeta = z[k];
            k += 1;
            for j in start..start + len {
                let t = pmod(zeta * c[j + len]);
                c[j + len] = pmod(c[j] - t);
                c[j] = pmod(c[j] + t);
            }
            start += 2 * len;
        }
        len /= 2;
    }
}

/// The Gentleman-Sande inverse, with the same scale convention as the
/// library: the result carries one Montgomery factor (scale 512).
fn ref_invntt_tomont(c: &mut [i64; 256]) {
    let z = plain_zetas();
    let mut len = 2;
    let mut k_top = 127;
    while len <= 128 {
        let groups = 256 / (2 * len);
        for g in 0..groups {
            let start = g * 2 * len;
            let zeta = z[k_top - g];
            for j in start..start + len {
                let u = c[j];
                let v = c[j + len];
                c[j] = pmod(u + v);
                c[j + len] = pmod((v - u) * zeta);
            }
        }
        k_top -= groups;
        len *= 2;
    }
    for x in c.iter_mut() {
        *x = pmod(*x * 512);
    }
}

/// The schoolbook product in each quadratic factor, with the library's
/// inverse Montgomery factor on the result.
fn ref_basemul(a: &[i64; 256], b: &[i64; 256]) -> [i64; 256] {
    let z = plain_zetas();
    let r_inv = powmod(2285, Q - 2);
    let mut out = [0i64; 256];
    for i in 0..64 {
        let zeta = z[64 + i];
        for half in 0..2 {
            let base = 4 * i + 2 * half;
            let zz = if half == 0 { zeta } else { Q - zeta };
            let (a0, a1) = (a[base], a[base + 1]);
            let (b0, b1) = (b[base], b[base + 1]);
            out[base] = pmod(pmod(a0 * b0 + pmod(zz * pmod(a1 * b1))) * r_inv);
            out[base + 1] = pmod(pmod(a0 * b1 + a1 * b0) * r_inv);
        }
    }
    out
}

fn canon(x: i64) -> i64 {
    pmod(x)
}

fn random_poly(rng: &mut impl Rng) -> KyberPoly {
    let mut a = [0i16; 256];
    for x in a.iter_mut() {
        *x = rng.gen_range(-1664..=1664);
    }
    KyberPoly::from_array(a)
}

fn poly_canon(p: &KyberPoly) -> [i64; 256] {
    let a = p.into_array();
    let mut out = [0i64; 256];
    for i in 0..256 {
        out[i] = canon(a[i] as i64);
    }
    out
}

#[test]
fn kyber_test_ntt_and_then_invtt() {
    let mut rng = rand::thread_rng();
    for testcase in 0..3_000 {
        let poly = random_poly(&mut rng);
        let poly_copy = poly.into_array();
        let mut p = poly;
        p.ntt();
        p.inv_ntt();
        let mut arr = p.into_array();
        for f in arr.iter_mut() {
            *f = fqmul(*f, 1);
        }
        assert_eq!(arr, poly_copy, "failed testcase #{}", testcase);
    }
}

#[test]
fn kyber_test_ntt_vs_ref() {
    let mut rng = rand::thread_rng();
    for _ in 0..3_000 {
        let poly = random_poly(&mut rng);
        let mut p = [0i64; 256];
        let arr = poly.into_array();
        for i in 0..256 {
            p[i] = canon(arr[i] as i64);
        }
        ref_ntt(&mut p);

        let mut mine = poly;
        mine.ntt();
        mine.reduce();
        assert_eq!(poly_canon(&mine), p);
    }
}

#[test]
fn kyber_test_invntt_vs_ref() {
    let mut rng = rand::thread_rng();
    for _ in 0..3_000 {
        let poly = random_poly(&mut rng);
        let mut p = [0i64; 256];
        let arr = poly.into_array();
        for i in 0..256 {
            p[i] = canon(arr[i] as i64);
        }
        ref_invntt_tomont(&mut p);

        let mut mine = poly;
        mine.inv_ntt();
        mine.reduce();
        assert_eq!(poly_canon(&mine), p);
    }
}

#[test]
fn pwm_vs_ref() {
    let mut rng = rand::thread_rng();
    for _ in 0..1_000 {
        let poly_a = random_poly(&mut rng);
        let poly_b = random_poly(&mut rng);
        let mut poly_r = KyberPoly::new();

        let mut a = [0i64; 256];
        let mut b = [0i64; 256];
        let aa = poly_a.into_array();
        let bb = poly_b.into_array();
        for i in 0..256 {
            a[i] = canon(aa[i] as i64);
            b[i] = canon(bb[i] as i64);
        }
        let r = ref_basemul(&a, &b);

        poly_a.pointwise(&poly_b, &mut poly_r);
        poly_r.reduce();
        assert_eq!(poly_canon(&poly_r), r);
    }
}

fn ref_cbd2(buf: &[u8; 128]) -> [i16; 256] {
    const MASK55: u32 = 0x55_55_55_55;
    let mut out = [0i16; 256];
    for (g, bytes) in buf.chunks_exact(4).enumerate() {
        let t = u32::from_le_bytes([bytes[0], bytes[1], bytes[2], bytes[3]]);
        let f0 = t & MASK55;
        let f1 = (t >> 1) & MASK55;
        let d = f0.wrapping_add(f1);
        for j in 0..4 {
            let a = ((d >> (8 * j)) & 0x3) as i8;
            let b = ((d >> (8 * j + 2)) & 0x3) as i8;
            out[8 * g + 2 * j] = (a - b) as i16;
            let a = ((d >> (8 * j + 4)) & 0x3) as i8;
            let b = ((d >> (8 * j + 6)) & 0x3) as i8;
            out[8 * g + 2 * j + 1] = (a - b) as i16;
        }
    }
    out
}

fn ref_cbd3(buf: &[u8; 192]) -> [i16; 256] {
    const MASK249: u32 = 0x00249249;
    let mut out = [0i16; 256];
    for (g, bytes) in buf.chunks_exact(3).enumerate() {
        let t = bytes[0] as u32 | (bytes[1] as u32) << 8 | (bytes[2] as u32) << 16;
        let mut d = t & MASK249;
        d += (t >> 1) & MASK249;
        d += (t >> 2) & MASK249;
        for j in 0..4 {
            let a = (d as i16) & 0x7;
            d >>= 3;
            let b = (d as i16) & 0x7;
            d >>= 3;
            out[4 * g + j] = a - b;
        }
    }
    out
}

#[test]
fn test_cbd2_vs_ref() {
    let mut rng = rand::thread_rng();
    for _ in 0..1_000 {
        let mut poly = random_poly(&mut rng);
        let mut buf = [0u8; 128];
        rng.fill(buf.as_mut());
        poly.cbd2(&buf);
        assert_eq!(poly.into_array(), ref_cbd2(&buf));
    }
}

#[test]
fn test_cbd3_vs_ref() {
    let mut rng = rand::thread_rng();
    for _ in 0..1_000 {
        let mut poly = random_poly(&mut rng);
        let mut buf = [0u8; 192];
        rng.fill(buf.as_mut());
        poly.cbd3(&buf);
        assert_eq!(poly.into_array(), ref_cbd3(&buf));
    }
}

#[test]
fn test_getnoise_eta3_vs_ref() {
    let mut rng = rand::thread_rng();
    let mut prf = Shake256::new();
    for _ in 0..1_000 {
        let mut poly = random_poly(&mut rng);
        let mut seed = [0u8; 32];
        rng.fill(seed.as_mut());
        let nonce = rand::random::<u8>();

        poly.getnoise_eta1::<2>(&mut prf, &seed, nonce);

        let mut concat = [0u8; 33];
        concat[..32].copy_from_slice(&seed);
        concat[32] = nonce;
        let mut buf = [0u8; 192];
        let mut shake = sha3::Shake256::default();
        shake.update(&concat);
        shake.finalize_xof().read(&mut buf);

        assert_eq!(poly.into_array(), ref_cbd3(&buf));
    }
}

fn ref_compress_d(x: i16, d: u32) -> u16 {
    let u = (x as i64).rem_euclid(Q);
    ((((u << d) + Q / 2) / Q) & ((1 << d) - 1)) as u16
}

fn ref_decompress_d(y: u16, d: u32) -> i16 {
    let y = (y as i64) & ((1 << d) - 1);
    ((y * Q + (1 << (d - 1))) >> d) as i16
}

/// The shift-based field packer of the reference layout.
fn ref_pack(vals: &[u16], d: u32, out: &mut [u8]) {
    assert_eq!(out.len() * 8, vals.len() * d as usize);
    for b in out.iter_mut() {
        *b = 0;
    }
    for (j, &v) in vals.iter().enumerate() {
        for t in 0..d {
            let bit = (v >> t) & 1;
            let pos = j * d as usize + t as usize;
            out[pos / 8] |= (bit as u8) << (pos % 8);
        }
    }
}

fn ref_unpack(bytes: &[u8], d: u32, out: &mut [u16]) {
    assert_eq!(bytes.len() * 8, out.len() * d as usize);
    for (j, v) in out.iter_mut().enumerate() {
        *v = 0;
        for t in 0..d {
            let pos = j * d as usize + t as usize;
            let bit = (bytes[pos / 8] >> (pos % 8)) & 1;
            *v |= (bit as u16) << t;
        }
    }
}

fn ref_poly_compress(p: &KyberPoly, d: u32) -> Vec<u8> {
    let arr = p.into_array();
    let mut vals = [0u16; 256];
    for i in 0..256 {
        vals[i] = ref_compress_d(arr[i], d);
    }
    let mut out = vec![0u8; 32 * d as usize];
    ref_pack(&vals, d, &mut out);
    out
}

#[test]
fn test_polycompress_vs_ref() {
    let mut rng = rand::thread_rng();
    for _ in 0..1_000 {
        let poly = random_poly(&mut rng);
        {
            let mut ct = vec![0u8; 128];
            poly.compress_slice::<4>(&mut ct);
            assert_eq!(ct, ref_poly_compress(&poly, 4));
        }
        {
            let mut ct = vec![0u8; 160];
            poly.compress_slice::<5>(&mut ct);
            assert_eq!(ct, ref_poly_compress(&poly, 5));
        }
        {
            let mut ct = vec![0u8; 320];
            poly.compress_slice::<10>(&mut ct);
            assert_eq!(ct, ref_poly_compress(&poly, 10));
        }
        {
            let mut ct = vec![0u8; 352];
            poly.compress_slice::<11>(&mut ct);
            assert_eq!(ct, ref_poly_compress(&poly, 11));
        }
    }
}

fn check_poly_decompress(d: u32, rounds: usize) {
    let mut rng = rand::thread_rng();
    let mut ct = vec![0u8; 32 * d as usize];
    for _ in 0..rounds {
        rng.fill_bytes(&mut ct);
        let mut poly = KyberPoly::new();
        match d {
            4 => poly.decompress_slice::<4>(&ct),
            5 => poly.decompress_slice::<5>(&ct),
            10 => poly.decompress_slice::<10>(&ct),
            11 => poly.decompress_slice::<11>(&ct),
            _ => unreachable!(),
        }
        let mut vals = [0u16; 256];
        ref_unpack(&ct, d, &mut vals);
        let arr = poly.into_array();
        for i in 0..256 {
            assert_eq!(arr[i], ref_decompress_d(vals[i], d));
        }
    }
}

#[test]
fn poly_decompress_vs_ref_2() {
    check_poly_decompress(4, 5_000);
}

#[test]
fn poly_decompress_vs_ref_3() {
    check_poly_decompress(4, 5_000);
}

#[test]
fn poly_decompress_vs_ref_4() {
    check_poly_decompress(5, 5_000);
}

fn check_polyvec_decompress<const K: usize>(d: u32, rounds: usize) {
    let mut rng = rand::thread_rng();
    let mut ct = vec![0u8; K * 32 * d as usize];
    for _ in 0..rounds {
        rng.fill_bytes(&mut ct);
        let mut pv = KyberPolyVec::<K>::new();
        for k in 0..K {
            let mut p = pv.poly_at(k);
            let row = &ct[k * 32 * d as usize..(k + 1) * 32 * d as usize];
            match d {
                10 => p.decompress_slice::<10>(row),
                11 => p.decompress_slice::<11>(row),
                _ => unreachable!(),
            }
            pv.set_poly(k, p);
        }
        for k in 0..K {
            let row = &ct[k * 32 * d as usize..(k + 1) * 32 * d as usize];
            let mut vals = [0u16; 256];
            ref_unpack(row, d, &mut vals);
            let arr = pv.poly_at(k).into_array();
            for i in 0..256 {
                assert_eq!(arr[i], ref_decompress_d(vals[i], d));
            }
        }
    }
}

#[test]
fn polyvec_decompress_vs_ref_2() {
    check_polyvec_decompress::<2>(10, 1_000);
}

#[test]
fn polyvec_decompress_vs_ref_3() {
    check_polyvec_decompress::<3>(10, 1_000);
}

#[test]
fn polyvec_decompress_vs_ref_4() {
    check_polyvec_decompress::<4>(11, 1_000);
}

#[test]
fn poly_serialize_round_trip() {
    let mut rng = rand::thread_rng();
    for _ in 0..1_000 {
        let poly = random_poly(&mut rng);
        let mut bytes = vec![0u8; 384];
        poly.to_bytes(&mut bytes);
        let mut back = KyberPoly::new();
        back.from_bytes(&bytes);
        assert_eq!(poly_canon(&back), poly_canon(&poly));
    }
}

#[test]
fn message_encode_decode_round_trip() {
    let mut rng = rand::thread_rng();
    for _ in 0..1_000 {
        let mut msg = [0u8; 32];
        rng.fill_bytes(&mut msg);
        let poly = KyberPoly::from_message(&msg);
        let mut back = [0u8; 32];
        poly.into_message(&mut back);
        assert_eq!(msg, back);
    }
}

#[test]
fn compress_decompress_error_bound() {
    for d in [4u32, 5, 10, 11] {
        let bound = (Q + (1 << (d + 1)) - 1) / (1 << (d + 1));
        for x in 0..Q {
            let c = ref_compress_d(x as i16, d);
            let y = ref_decompress_d(c, d) as i64;
            let diff = (y - x).rem_euclid(Q);
            assert!(
                diff <= bound || diff >= Q - bound,
                "d={} x={} y={} diff={}",
                d,
                x,
                y,
                diff
            );
        }
        let mut poly_arr = [0i16; 256];
        for i in 0..256 {
            poly_arr[i] = (i as i16 * 13) % 3329;
        }
        let poly = KyberPoly::from_array(poly_arr);
        let mut ct = vec![0u8; 32 * d as usize];
        let mut back = KyberPoly::new();
        match d {
            4 => {
                poly.compress_slice::<4>(&mut ct);
                back.decompress_slice::<4>(&ct);
            }
            5 => {
                poly.compress_slice::<5>(&mut ct);
                back.decompress_slice::<5>(&ct);
            }
            10 => {
                poly.compress_slice::<10>(&mut ct);
                back.decompress_slice::<10>(&ct);
            }
            _ => {
                poly.compress_slice::<11>(&mut ct);
                back.decompress_slice::<11>(&ct);
            }
        }
        let a = poly_canon(&poly);
        let b = poly_canon(&back);
        for i in 0..256 {
            let diff = (b[i] - a[i]).rem_euclid(Q);
            assert!(diff <= bound || diff >= Q - bound);
        }
    }
}

#[test]
fn compress_boundary_values() {
    // Compressing zero yields zero; compressing floor(q/2) yields
    // 2^(d-1) after rounding, for each width.
    for d in [4u32, 5, 10, 11] {
        assert_eq!(ref_compress_d(0, d), 0);
        let mut arr = [0i16; 256];
        arr[0] = 0;
        arr[1] = 1664;
        let poly = KyberPoly::from_array(arr);
        let mut ct = vec![0u8; 32 * d as usize];
        match d {
            4 => poly.compress_slice::<4>(&mut ct),
            5 => poly.compress_slice::<5>(&mut ct),
            10 => poly.compress_slice::<10>(&mut ct),
            _ => poly.compress_slice::<11>(&mut ct),
        }
        let mut vals = [0u16; 256];
        ref_unpack(&ct, d, &mut vals);
        assert_eq!(vals[0], 0);
        assert_eq!(vals[1] as i64, ((1664i64 * (1 << d) + 1664) / 3329) & ((1 << d) - 1));
        assert_eq!(vals[1], 1 << (d - 1));
    }
}
