//! Kyber IND-CPA tests: key generation, encryption and decryption are
//! cross-checked byte for byte against a plain modular-arithmetic
//! reference implementation driven by an independent SHA3 library, and
//! round trips must recover the message.

use crystals::ciphertext::VecCipherText;
use crystals::pke::{decrypt, encrypt, keypair, CPASecretKey, PublicKey};
use digest::{Digest, ExtendableOutput, Update, XofReader};
use rand::Rng;
use rand::RngCore;
use crystals::ciphertext::Ciphertext;
use crystals::pke::KyberPke;
use crystals::poly_kyber::KyberPoly;
use crystals::polyvec::KyberPolyVec;

const Q: i64 = 3329;

fn pmod(x: i64) -> i64 {
    x.rem_euclid(Q)
}

fn powmod(mut b: i64, mut e: i64) -> i64 {
    let mut r: i64 = 1;
    b = pmod(b);
    while e > 0 {
        if e & 1 == 1 {
            r = pmod(r * b);
        }
        b = pmod(b * b);
        e >>= 1;
    }
    r
}

fn brv7(k: usize) -> usize {
    let mut r = 0;
    for b in 0..7 {
        r |= ((k >> b) & 1) << (6 - b);
    }
    r
}

fn plain_zetas() -> [i64; 128] {
    let mut z = [0i64; 128];
    for k in 0..128 {
        z[k] = powmod(17, brv7(k) as i64);
    }
    z
}

type Poly = [i64; 256];

fn ref_ntt(c: &mut Poly) {
    let z = plain_zetas();
    let mut k = 1;
    let mut len = 128;
    while len >= 2 {
        let mut start = 0;
        while start < 256 {
            let zeta = z[k];
            k += 1;
            for j in start..start + len {
                let t = pmod(zeta * c[j + len]);
                c[j + len] = pmod(c[j] - t);
                c[j] = pmod(c[j] + t);
            }
            start += 2 * len;
        }
        len /= 2;
    }
}

/// The true inverse transform: Gentleman-Sande plus the 1/128 scale.
fn ref_invntt(c: &mut Poly) {
    let z = plain_zetas();
    let n_inv = powmod(128, Q - 2);
    let mut len = 2;
    let mut k_top = 127;
    while len <= 128 {
        let groups = 256 / (2 * len);
        for g in 0..groups {
            let start = g * 2 * len;
            let zeta = z[k_top - g];
            for j in start..start + len {
                let u = c[j];
                let v = c[j + len];
                c[j] = pmod(u + v);
                c[j + len] = pmod((v - u) * zeta);
            }
        }
        k_top -= groups;
        len *= 2;
    }
    for x in c.iter_mut() {
        *x = pmod(*x * n_inv);
    }
}

/// The NTT-domain product; the Montgomery factors of the pipeline
/// cancel, so this is the plain schoolbook result.
fn ref_basemul_acc(acc: &mut Poly, a: &Poly, b: &Poly) {
    let z = plain_zetas();
    for i in 0..64 {
        let zeta = z[64 + i];
        for half in 0..2 {
            let base = 4 * i + 2 * half;
            let zz = if half == 0 { zeta } else { Q - zeta };
            let (a0, a1) = (a[base], a[base + 1]);
            let (b0, b1) = (b[base], b[base + 1]);
            acc[base] = pmod(acc[base] + pmod(a0 * b0) + pmod(zz * pmod(a1 * b1)));
            acc[base + 1] = pmod(acc[base + 1] + pmod(a0 * b1) + pmod(a1 * b0));
        }
    }
}

fn sha3_512_ref(data: &[u8]) -> [u8; 64] {
    let mut h = sha3::Sha3_512::default();
    Digest::update(&mut h, data);
    let mut out = [0u8; 64];
    out.copy_from_slice(&h.finalize());
    out
}

fn shake256_ref(seed: &[u8; 32], nonce: u8, n: usize) -> Vec<u8> {
    let mut concat = [0u8; 33];
    concat[..32].copy_from_slice(seed);
    concat[32] = nonce;
    let mut shake = sha3::Shake256::default();
    shake.update(&concat);
    let mut out = vec![0u8; n];
    shake.finalize_xof().read(&mut out);
    out
}

fn ref_cbd(buf: &[u8], eta: usize) -> Poly {
    let mut out = [0i64; 256];
    let bit = |i: usize| ((buf[i / 8] >> (i % 8)) & 1) as i64;
    for k in 0..256 {
        let mut a = 0;
        let mut b = 0;
        for t in 0..eta {
            a += bit(2 * eta * k + t);
            b += bit(2 * eta * k + eta + t);
        }
        out[k] = pmod(a - b);
    }
    out
}

fn ref_noise(seed: &[u8; 32], nonce: u8, eta: usize) -> Poly {
    let buf = shake256_ref(seed, nonce, eta * 64);
    ref_cbd(&buf, eta)
}

fn ref_uniform(seed: &[u8; 32], n1: u8, n2: u8) -> Poly {
    let mut absorbed = [0u8; 34];
    absorbed[..32].copy_from_slice(seed);
    absorbed[32] = n1;
    absorbed[33] = n2;
    let mut shake = sha3::Shake128::default();
    shake.update(&absorbed);
    let mut reader = shake.finalize_xof();
    let mut block = [0u8; 168];
    let mut out = [0i64; 256];
    let mut ctr = 0;
    while ctr < 256 {
        reader.read(&mut block);
        for chunk in block.chunks_exact(3) {
            let v0 = (chunk[0] as i64 | (chunk[1] as i64) << 8) & 0xFFF;
            if ctr < 256 && v0 < Q {
                out[ctr] = v0;
                ctr += 1;
            }
            let v1 = ((chunk[1] >> 4) as i64 | (chunk[2] as i64) << 4) & 0xFFF;
            if ctr < 256 && v1 < Q {
                out[ctr] = v1;
                ctr += 1;
            }
        }
    }
    out
}

fn ref_pack(vals: &[i64], d: u32, out: &mut [u8]) {
    assert_eq!(out.len() * 8, vals.len() * d as usize);
    for b in out.iter_mut() {
        *b = 0;
    }
    for (j, &v) in vals.iter().enumerate() {
        for t in 0..d {
            let bit = ((v >> t) & 1) as u8;
            let pos = j * d as usize + t as usize;
            out[pos / 8] |= bit << (pos % 8);
        }
    }
}

fn ref_unpack(bytes: &[u8], d: u32, out: &mut [i64]) {
    assert_eq!(bytes.len() * 8, out.len() * d as usize);
    for (j, v) in out.iter_mut().enumerate() {
        *v = 0;
        for t in 0..d {
            let pos = j * d as usize + t as usize;
            *v |= (((bytes[pos / 8] >> (pos % 8)) & 1) as i64) << t;
        }
    }
}

fn ref_compress(x: i64, d: u32) -> i64 {
    (((pmod(x) << d) + Q / 2) / Q) & ((1 << d) - 1)
}

fn ref_decompress(y: i64, d: u32) -> i64 {
    (y * Q + (1 << (d - 1))) >> d
}

fn eta1_of(k: usize) -> usize {
    if k == 2 {
        3
    } else {
        2
    }
}

fn dims_of(k: usize) -> (u32, u32) {
    if k == 4 {
        (5, 11)
    } else {
        (4, 10)
    }
}

/// Reference key generation: flat `pk = rows || seed` and `sk = rows`.
fn ref_keypair<const K: usize>(entropy: &[u8; 32]) -> (Vec<u8>, Vec<u8>) {
    let buf = sha3_512_ref(entropy);
    let mut pubseed = [0u8; 32];
    pubseed.copy_from_slice(&buf[..32]);
    let mut noiseseed = [0u8; 32];
    noiseseed.copy_from_slice(&buf[32..]);
    let eta1 = eta1_of(K);

    let mut s_hat: Vec<Poly> = Vec::new();
    for i in 0..K {
        let mut p = ref_noise(&noiseseed, i as u8, eta1);
        ref_ntt(&mut p);
        s_hat.push(p);
    }
    let mut t_hat: Vec<Poly> = Vec::new();
    for i in 0..K {
        let mut acc = [0i64; 256];
        for j in 0..K {
            let a_ij = ref_uniform(&pubseed, j as u8, i as u8);
            ref_basemul_acc(&mut acc, &a_ij, &s_hat[j]);
        }
        let mut e_i = ref_noise(&noiseseed, (K + i) as u8, eta1);
        ref_ntt(&mut e_i);
        for t in 0..256 {
            acc[t] = pmod(acc[t] + e_i[t]);
        }
        t_hat.push(acc);
    }

    let mut pk = vec![0u8; K * 384 + 32];
    for i in 0..K {
        ref_pack(&t_hat[i], 12, &mut pk[i * 384..(i + 1) * 384]);
    }
    pk[K * 384..].copy_from_slice(&pubseed);
    let mut sk = vec![0u8; K * 384];
    for i in 0..K {
        ref_pack(&s_hat[i], 12, &mut sk[i * 384..(i + 1) * 384]);
    }
    (pk, sk)
}

/// Reference encryption of a 32-byte message.
fn ref_encrypt<const K: usize>(msg: &[u8; 32], pk: &[u8], coins: &[u8; 32]) -> Vec<u8> {
    let (dp, dv) = dims_of(K);
    let eta1 = eta1_of(K);
    let mut pubseed = [0u8; 32];
    pubseed.copy_from_slice(&pk[K * 384..]);
    let mut t_hat: Vec<Poly> = Vec::new();
    for i in 0..K {
        let mut p = [0i64; 256];
        ref_unpack(&pk[i * 384..(i + 1) * 384], 12, &mut p);
        for x in p.iter_mut() {
            *x = pmod(*x);
        }
        t_hat.push(p);
    }

    let mut r_hat: Vec<Poly> = Vec::new();
    for i in 0..K {
        let mut p = ref_noise(coins, i as u8, eta1);
        ref_ntt(&mut p);
        r_hat.push(p);
    }

    let mut ct = vec![0u8; K * 32 * dv as usize + 32 * dp as usize];
    for i in 0..K {
        let mut acc = [0i64; 256];
        for j in 0..K {
            let at_ij = ref_uniform(&pubseed, i as u8, j as u8);
            ref_basemul_acc(&mut acc, &at_ij, &r_hat[j]);
        }
        ref_invntt(&mut acc);
        let e1_i = ref_noise(coins, (K + i) as u8, 2);
        let mut comp = [0i64; 256];
        for t in 0..256 {
            comp[t] = ref_compress(acc[t] + e1_i[t], dv);
        }
        ref_pack(&comp, dv, &mut ct[i * 32 * dv as usize..(i + 1) * 32 * dv as usize]);
    }

    let mut v = [0i64; 256];
    for j in 0..K {
        ref_basemul_acc(&mut v, &t_hat[j], &r_hat[j]);
    }
    ref_invntt(&mut v);
    let e2 = ref_noise(coins, 2 * K as u8, 2);
    let mut comp = [0i64; 256];
    for t in 0..256 {
        let m_bit = ((msg[t / 8] >> (t % 8)) & 1) as i64;
        comp[t] = ref_compress(v[t] + e2[t] + m_bit * 1665, dp);
    }
    ref_pack(&comp, dp, &mut ct[K * 32 * dv as usize..]);
    ct
}

/// Reference decryption.
fn ref_decrypt<const K: usize>(ct: &[u8], sk: &[u8]) -> [u8; 32] {
    let (dp, dv) = dims_of(K);
    let mut mp = [0i64; 256];
    {
        let mut acc = [0i64; 256];
        for j in 0..K {
            let mut b = [0i64; 256];
            ref_unpack(&ct[j * 32 * dv as usize..(j + 1) * 32 * dv as usize], dv, &mut b);
            for x in b.iter_mut() {
                *x = ref_decompress(*x, dv);
            }
            ref_ntt(&mut b);
            let mut s = [0i64; 256];
            ref_unpack(&sk[j * 384..(j + 1) * 384], 12, &mut s);
            ref_basemul_acc(&mut acc, &s, &b);
        }
        ref_invntt(&mut acc);
        mp.copy_from_slice(&acc);
    }
    let mut v = [0i64; 256];
    ref_unpack(&ct[K * 32 * dv as usize..], dp, &mut v);
    let mut msg = [0u8; 32];
    for t in 0..256 {
        let diff = pmod(mp[t] - ref_decompress(v[t], dp));
        let bit = ref_compress(diff, 1) as u8;
        msg[t / 8] |= bit << (t % 8);
    }
    msg
}

fn flat_pk<const K: usize>(pk: &PublicKey<K>) -> Vec<u8> {
    let mut out = Vec::new();
    for row in pk.bytes.iter() {
        out.extend_from_slice(row);
    }
    out.extend_from_slice(&pk.seed);
    out
}

fn flat_sk<const K: usize>(sk: &CPASecretKey<K>) -> Vec<u8> {
    let mut out = Vec::new();
    for row in sk.bytes().iter() {
        out.extend_from_slice(row);
    }
    out
}

fn flat_ct<const K: usize>(ct: &VecCipherText<K>) -> Vec<u8> {
    ct.to_vec()
}

fn test_keypair_vs_ref<const K: usize>() {
    let mut rng = rand::thread_rng();
    let mut entropy = [0u8; 32];
    let mut sk = CPASecretKey::<K>::new();
    let mut pk = PublicKey::<K>::new();

    for test in 0..4_000 / (K * K) {
        rng.fill(entropy.as_mut());
        keypair(&entropy, &mut sk, &mut pk);
        let (pk_ref, sk_ref) = ref_keypair::<K>(&entropy);
        assert_eq!(
            flat_pk(&pk),
            pk_ref,
            "PK failed K={K} test#={test} entropy={entropy:?}"
        );
        assert_eq!(
            flat_sk(&sk),
            sk_ref,
            "SK failed K={K} test#={test} entropy={entropy:?}"
        );
    }
}

#[test]
fn keypair_vs_ref_2() {
    test_keypair_vs_ref::<2>();
}

#[test]
fn keypair_vs_ref_3() {
    test_keypair_vs_ref::<3>();
}

#[test]
fn keypair_vs_ref_4() {
    test_keypair_vs_ref::<4>();
}

fn test_encrypt_vs_ref<const K: usize>() {
    let mut rng = rand::thread_rng();
    let mut entropy = [0u8; 32];
    rng.fill(entropy.as_mut());
    let mut sk = CPASecretKey::<K>::new();
    let mut pk = PublicKey::<K>::new();
    keypair(&entropy, &mut sk, &mut pk);

    let mut msg = [0u8; 32];
    let mut coins = [0u8; 32];
    for _test in 0..250 {
        rng.fill(msg.as_mut());
        rng.fill(coins.as_mut());

        let ct_ref = ref_encrypt::<K>(&msg, &flat_pk(&pk), &coins);
        let mut ct = VecCipherText::<K>::new();
        encrypt(&msg, &pk, &coins, &mut ct);
        assert_eq!(flat_ct(&ct), ct_ref);
    }
}

#[test]
fn encrypt_vs_ref_2() {
    test_encrypt_vs_ref::<2>();
}

#[test]
fn encrypt_vs_ref_3() {
    test_encrypt_vs_ref::<3>();
}

#[test]
fn encrypt_vs_ref_4() {
    test_encrypt_vs_ref::<4>();
}

fn test_decrypt_vs_ref<const K: usize>() {
    let mut rng = rand::thread_rng();
    let mut entropy = [0u8; 32];
    rng.fill(entropy.as_mut());
    let mut sk = CPASecretKey::<K>::new();
    let mut pk = PublicKey::<K>::new();
    keypair(&entropy, &mut sk, &mut pk);

    let mut msg = [0u8; 32];
    let n = K * 32 * dims_of(K).1 as usize + 32 * dims_of(K).0 as usize;
    for _test in 0..1_000 / K {
        let mut raw = vec![0u8; n];
        rng.fill_bytes(&mut raw);
        let ct = VecCipherText::<K>::from_vec(raw.clone());
        decrypt(&ct, &sk, &mut msg);
        let msg_ref = ref_decrypt::<K>(&raw, &flat_sk(&sk));
        assert_eq!(msg, msg_ref);
    }
}

#[test]
fn decrypt_vs_ref_2() {
    test_decrypt_vs_ref::<2>();
}

#[test]
fn decrypt_vs_ref_3() {
    test_decrypt_vs_ref::<3>();
}

#[test]
fn decrypt_vs_ref_4() {
    test_decrypt_vs_ref::<4>();
}

fn test_encrypt_then_decrypt_valid_keys_alloc<const K: usize>() {
    let mut rng = rand::thread_rng();
    let mut entropy = [0u8; 32];
    let mut sk = CPASecretKey::<K>::new();
    let mut pk = PublicKey::<K>::new();
    let mut msg = [0u8; 32];
    let mut coins = [0u8; 32];
    let mut ct = VecCipherText::<K>::new();
    let mut decrypted_msg = [0u8; 32];

    for _test in 0..=1_000 / K {
        rng.fill(entropy.as_mut());
        keypair(&entropy, &mut sk, &mut pk);

        rng.fill(msg.as_mut());
        rng.fill(coins.as_mut());

        encrypt(&msg, &pk, &coins, &mut ct);
        decrypt(&ct, &sk, &mut decrypted_msg);

        assert_eq!(msg, decrypted_msg);
    }
}

#[test]
fn encrypt_then_decrypt_valid_keys_2() {
    test_encrypt_then_decrypt_valid_keys_alloc::<2>();
}

#[test]
fn encrypt_then_decrypt_valid_keys_3() {
    test_encrypt_then_decrypt_valid_keys_alloc::<3>();
}

#[test]
fn encrypt_then_decrypt_valid_keys_4() {
    test_encrypt_then_decrypt_valid_keys_alloc::<4>();
}

fn test_stack_roundtrip<const DP: usize, const DV: usize, const K: usize>() {
    let mut rng = rand::thread_rng();
    let mut entropy = [0u8; 32];
    let mut msg = [0u8; 32];
    let mut coins = [0u8; 32];
    let mut decrypted_msg = [0u8; 32];
    let mut sk = CPASecretKey::<K>::new();
    let mut pk = PublicKey::<K>::new();

    for _test in 0..1_000 / K {
        rng.fill(entropy.as_mut());
        keypair(&entropy, &mut sk, &mut pk);

        rng.fill(coins.as_mut());
        rng.fill(msg.as_mut());

        // The stack-resident ciphertext must carry the same bytes as the
        // heap-resident one and decrypt to the same message.
        let mut vc = VecCipherText::<K>::new();
        KyberPke::<K>::encrypt(&msg, &pk, &coins, &mut vc);
        let flat = vc.to_vec();

        let mut ct = Ciphertext::<DP, DV, K>::new();
        let rebuilt = VecCipherText::<K>::from_vec(flat.clone());
        let mut b = KyberPolyVec::<K>::new();
        rebuilt.decompress_polyvec(&mut b);
        let mut v = KyberPoly::new();
        rebuilt.decompress_poly(&mut v);
        ct.compress_polyvec(&b);
        ct.compress_poly(&v);

        // The two storage variants hold identical bytes.
        let mut flat2 = ct.polyvec_bytes();
        flat2.extend_from_slice(&ct.poly_bytes());
        assert_eq!(flat2, flat);

        // Decrypt through a ciphertext rebuilt from the stack shape.
        let mut b2 = KyberPolyVec::<K>::new();
        ct.decompress_polyvec(&mut b2);
        let mut v2 = KyberPoly::new();
        ct.decompress_poly(&mut v2);
        let mut back = VecCipherText::<K>::new();
        back.compress_polyvec(&b2);
        back.compress_poly(&v2);
        decrypt(&back, &sk, &mut decrypted_msg);

        assert_eq!(msg, decrypted_msg);
    }
}

#[test]
fn encrypt_then_decrypt_valid_keys_heap_2() {
    test_stack_roundtrip::<4, 10, 2>();
}

#[test]
fn encrypt_then_decrypt_valid_keys_heap_3() {
    test_stack_roundtrip::<4, 10, 3>();
}

#[test]
fn encrypt_then_decrypt_valid_keys_heap_4() {
    test_stack_roundtrip::<5, 11, 4>();
}

#[test]
fn keypair_zero_entropy_is_deterministic() {
    let entropy = [0u8; 32];
    let mut sk1 = CPASecretKey::<2>::new();
    let mut pk1 = PublicKey::<2>::new();
    keypair(&entropy, &mut sk1, &mut pk1);
    let mut sk2 = CPASecretKey::<2>::new();
    let mut pk2 = PublicKey::<2>::new();
    keypair(&entropy, &mut sk2, &mut pk2);
    assert_eq!(flat_pk(&pk1), flat_pk(&pk2));
    assert_eq!(flat_sk(&sk1), flat_sk(&sk2));
    // And it agrees with the reference implementation.
    let (pk_ref, sk_ref) = ref_keypair::<2>(&entropy);
    assert_eq!(flat_pk(&pk1), pk_ref);
    assert_eq!(flat_sk(&sk1), sk_ref);
}

#[test]
fn encrypt_is_deterministic() {
    let mut rng = rand::thread_rng();
    let mut entropy = [0u8; 32];
    rng.fill(entropy.as_mut());
    let mut sk = CPASecretKey::<3>::new();
    let mut pk = PublicKey::<3>::new();
    keypair(&entropy, &mut sk, &mut pk);

    let mut msg = [0u8; 32];
    let mut coins = [0u8; 32];
    rng.fill(msg.as_mut());
    rng.fill(coins.as_mut());

    let mut ct1 = VecCipherText::<3>::new();
    encrypt(&msg, &pk, &coins, &mut ct1);
    let mut ct2 = VecCipherText::<3>::new();
    encrypt(&msg, &pk, &coins, &mut ct2);
    assert_eq!(ct1.to_vec(), ct2.to_vec());

    let mut m1 = [0u8; 32];
    decrypt(&ct1, &sk, &mut m1);
    let mut m2 = [0u8; 32];
    decrypt(&ct1, &sk, &mut m2);
    assert_eq!(m1, m2);
    assert_eq!(m1, msg);
}
