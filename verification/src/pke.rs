//! The Kyber IND-CPA public-key encryption scheme: key generation,
//! encryption and decryption over the verified polynomial, sponge and
//! codec layers, for every dimension `K` in {2, 3, 4}.

use crate::ciphertext::{d_poly_of, d_vec_of, VecCipherText};
use crate::codec::pack_spec;
use crate::fips202::{sha3_512_spec, shake256_spec, Sha3_512, Shake256};
use crate::fq_kyber::mont_red;
use crate::poly_kyber::{
    barrett_map, canon_u16, cbd2_coeff, cbd3_coeff, decompress_spec, kyber_inv_ntt_spec,
    kyber_ntt_spec, message_bits, unpacked_field, unpacked_field_i16, KyberPoly,
};
use crate::polymat::matrix_entry_spec;
use crate::polyvec::{coeff_rows, dot_acc_spec, KyberPolyVec};
use crate::utils::byte_vec;
use vstd::prelude::*;

verus! {

broadcast use vstd::array::group_array_axioms, crate::poly_kyber::kyber_poly_len;

/// The all-zero coefficient sequence.
pub open spec fn zero_poly() -> Seq<i16> {
    Seq::new(256, |i: int| 0i16)
}

/// The public matrix seed: the first half of the hashed entropy.
pub open spec fn pubseed_spec(entropy: Seq<u8>) -> Seq<u8> {
    sha3_512_spec(entropy).take(32)
}

/// The noise seed: the second half of the hashed entropy.
pub open spec fn noiseseed_spec(entropy: Seq<u8>) -> Seq<u8> {
    sha3_512_spec(entropy).skip(32)
}

/// The centered binomial noise polynomial for `seed` and `nonce` at the
/// first noise parameter of dimension `k` (3 for `k = 2`, else 2).
pub open spec fn noise1_poly_spec(seed: Seq<u8>, nonce: u8, k: int) -> Seq<i16> {
    if k == 2 {
        Seq::new(256, |t: int| cbd3_coeff(shake256_spec(seed + seq![nonce], 192), t) as i16)
    } else {
        Seq::new(256, |t: int| cbd2_coeff(shake256_spec(seed + seq![nonce], 128), t) as i16)
    }
}

/// The centered binomial noise polynomial at the second noise
/// parameter, 2.
pub open spec fn noise2_poly_spec(seed: Seq<u8>, nonce: u8) -> Seq<i16> {
    Seq::new(256, |t: int| cbd2_coeff(shake256_spec(seed + seq![nonce], 128), t) as i16)
}

/// A polynomial deserialized from one 384-byte row of 12-bit fields.
pub open spec fn unpack_poly_spec(row: Seq<u8>) -> Seq<i16> {
    Seq::new(256, |i: int| unpacked_field_i16(row, i))
}

/// A polynomial decompressed from `d`-bit fields.
pub open spec fn decomp_poly_spec(part: Seq<u8>, d: int) -> Seq<i16> {
    Seq::new(256, |i: int| decompress_spec(unpacked_field(part, d, i) as int, d) as i16)
}

/// Secret row `j` in the NTT domain: sampled, transformed, reduced.
pub open spec fn sk_poly_spec(noiseseed: Seq<u8>, j: int, k: int) -> Seq<i16> {
    barrett_map(kyber_ntt_spec(noise1_poly_spec(noiseseed, j as u8, k)))
}

/// Public row `i` before the final reduction: the NTT-domain inner
/// product of matrix row `i` with the secret, moved to the Montgomery
/// domain, plus the transformed error polynomial.
pub open spec fn t_poly_spec(pubseed: Seq<u8>, noiseseed: Seq<u8>, i: int, k: int) -> Seq<i16> {
    let srows = Seq::new(k as nat, |j: int| sk_poly_spec(noiseseed, j, k));
    let arow = Seq::new(k as nat, |j: int| matrix_entry_spec(pubseed, false, i, j));
    let acc = barrett_map(dot_acc_spec(zero_poly(), arow, srows, k));
    let e = kyber_ntt_spec(noise1_poly_spec(noiseseed, (k + i) as u8, k));
    Seq::new(256, |t: int| (mont_red(acc[t] * 1353) + e[t]) as i16)
}

/// The message polynomial: bit `t` of the message selects `(q+1)/2`.
pub open spec fn msg_poly_spec(msg: Seq<u8>) -> Seq<i16> {
    Seq::new(256, |t: int| (1665 * crate::codec::bit_of(msg, t)) as i16)
}

/// The NTT-domain randomness rows of an encryption: sampled from the
/// coins at nonces `0..K`, transformed and reduced.
pub open spec fn enc_r_rows_spec(coins: Seq<u8>, k: int) -> Seq<Seq<i16>> {
    Seq::new(k as nat, |j: int| barrett_map(kyber_ntt_spec(noise1_poly_spec(coins, j as u8, k))))
}

/// Row `i` of the ciphertext vector part before compression:
/// `invntt(A^T_i * r) + e1_i`, reduced.
pub open spec fn enc_u_poly_spec(pubseed: Seq<u8>, coins: Seq<u8>, i: int, k: int) -> Seq<i16> {
    let sp = enc_r_rows_spec(coins, k);
    let at_i = Seq::new(k as nat, |j: int| matrix_entry_spec(pubseed, true, i, j));
    let b_i = kyber_inv_ntt_spec(barrett_map(dot_acc_spec(zero_poly(), at_i, sp, k)));
    let e1 = noise2_poly_spec(coins, (k + i) as u8);
    barrett_map(Seq::new(256, |t: int| (b_i[t] + e1[t]) as i16))
}

/// The ciphertext polynomial part before compression:
/// `invntt(t^T * r) + e2 + encode(msg)`, reduced.
pub open spec fn enc_v_poly_spec(
    pk_rows: Seq<[u8; 384]>,
    coins: Seq<u8>,
    msg: Seq<u8>,
    k: int,
) -> Seq<i16> {
    let sp = enc_r_rows_spec(coins, k);
    let tr = Seq::new(k as nat, |j: int| unpack_poly_spec(pk_rows[j]@));
    let v0 = kyber_inv_ntt_spec(barrett_map(dot_acc_spec(zero_poly(), tr, sp, k)));
    let e2 = noise2_poly_spec(coins, (2 * k) as u8);
    let m = msg_poly_spec(msg);
    barrett_map(Seq::new(256, |t: int| (v0[t] + e2[t] + m[t]) as i16))
}

/// The decrypted message bytes of a ciphertext under a secret key: the
/// vector part is decompressed, transformed and reduced, folded with
/// the secret rows into the inner product, brought back from the NTT
/// domain, and the decompressed polynomial part is subtracted before
/// each coefficient decodes to its message bit.
pub open spec fn decrypt_spec<const K: usize>(ct: VecCipherText<K>, rows: Seq<[u8; 384]>) -> Seq<
    u8,
> {
    let b = Seq::new(
        K as nat,
        |k: int|
            barrett_map(
                kyber_ntt_spec(decomp_poly_spec(ct.vec_part(k), d_vec_of(K as int))),
            ),
    );
    let srows = Seq::new(K as nat, |k: int| unpack_poly_spec(rows[k]@));
    let mp = kyber_inv_ntt_spec(barrett_map(dot_acc_spec(zero_poly(), srows, b, K as int)));
    let v = decomp_poly_spec(ct.poly_part(), d_poly_of(K as int));
    let m = Seq::new(256, |i: int| (mp[i] - v[i]) as i16);
    pack_spec(message_bits(m), 1, 32)
}

/// Bytes of a shared secret or message.
pub const KYBER_SSBYTES: usize = 32;

/// Bytes of a seed.
pub const KYBER_SYMBYTES: usize = 32;

/// The errors surfaced by the layers above the IND-CPA core.
#[derive(Clone, Copy, Debug, PartialEq, Eq)]
pub enum KyberError {
    /// Re-encryption of the decrypted message did not match the
    /// ciphertext during decapsulation.
    DecapsFailure,
    /// The random source could not supply the requested bytes.
    RngFailure,
}

/// A Kyber public key: the serialized NTT-domain vector `t` and the
/// public matrix seed.
pub struct PublicKey<const K: usize> {
    pub bytes: [[u8; 384]; K],
    pub seed: [u8; 32],
}

impl<const K: usize> PublicKey<K> {
    /// The all-zero public key, to be filled by `keypair`.
    pub fn new() -> (r: PublicKey<K>)
        ensures
            r.seed@.len() == 32,
    {
        PublicKey { bytes: [[0u8; 384]; K], seed: [0u8; 32] }
    }
}

/// A Kyber IND-CPA secret key: the serialized NTT-domain vector `s`.
pub struct CPASecretKey<const K: usize> {
    bytes: [[u8; 384]; K],
}

impl<const K: usize> CPASecretKey<K> {
    pub closed spec fn rows(&self) -> Seq<[u8; 384]> {
        self.bytes@
    }

    /// The all-zero secret key, to be filled by `keypair`.
    pub fn new() -> (r: CPASecretKey<K>)
        ensures
            r.rows().len() == K,
    {
        CPASecretKey { bytes: [[0u8; 384]; K] }
    }

    /// The serialized polynomial rows.
    pub fn bytes(&self) -> (r: &[[u8; 384]; K])
        ensures
            r@ == self.rows(),
    {
        &self.bytes
    }

    /// Overwrite the serialized rows.
    pub fn set_bytes(&mut self, rows: [[u8; 384]; K])
        ensures
            final(self).rows() == rows@,
    {
        self.bytes = rows;
    }
}

/// A raw ciphertext byte buffer of a fixed total length.
pub type CipherText<const N: usize> = [u8; N];

/// A Kyber KEM secret key: the IND-CPA key together with the public key,
/// its hash, and the implicit-rejection secret.
pub struct SecretKey<const K: usize> {
    pub cpa_sk: CPASecretKey<K>,
    pub pk: PublicKey<K>,
    pub h_pk: [u8; 32],
    pub z: [u8; 32],
}

/// The IND-CPA scheme at dimension `K`.
pub struct KyberPke<const K: usize> {}

impl<const K: usize> KyberPke<K> {
    /// Generate a key pair from 32 bytes of entropy: the entropy is
    /// hashed with SHA3-512 into the public matrix seed and the noise
    /// seed, the secret vector `s` and error vector `e` are sampled from
    /// the noise seed, and `t = A*s + e` is computed row by row in the
    /// NTT domain.
    pub fn keypair(entropy: &[u8], sk: &mut CPASecretKey<K>, pk: &mut PublicKey<K>)
        requires
            K == 2 || K == 3 || K == 4,
            entropy@.len() == 32,
        ensures
            final(pk).seed@ == pubseed_spec(entropy@),
            forall|j: int|
                0 <= j < K ==> (#[trigger] final(sk).rows()[j])@ == pack_spec(
                    canon_u16(sk_poly_spec(noiseseed_spec(entropy@), j, K as int)),
                    12,
                    384,
                ),
            forall|i: int|
                0 <= i < K ==> (#[trigger] final(pk).bytes@[i])@ == pack_spec(
                    canon_u16(
                        barrett_map(
                            t_poly_spec(pubseed_spec(entropy@), noiseseed_spec(entropy@), i, K as int),
                        ),
                    ),
                    12,
                    384,
                ),
            final(pk).seed@.len() == 32,
            final(sk).rows().len() == K,
    {
        let mut buf = byte_vec(64);
        let mut hash_g = Sha3_512::new();
        hash_g.digest(entropy, buf.as_mut_slice());
        let mut public_seed = [0u8; 32];
        let mut noise_seed = [0u8; 32];
        for i in 0..32
            invariant
                buf@.len() == 64,
                buf@ == sha3_512_spec(entropy@),
                public_seed@.len() == 32,
                noise_seed@.len() == 32,
                forall|t: int| 0 <= t < i ==> public_seed@[t] == buf@[t],
                forall|t: int| 0 <= t < i ==> noise_seed@[t] == buf@[32 + t],
        {
            public_seed[i] = buf[i];
            noise_seed[i] = buf[32 + i];
        }
        pk.seed = public_seed;
        proof {
            assert(pk.seed@ =~= pubseed_spec(entropy@));
            assert(noise_seed@ =~= noiseseed_spec(entropy@));
        }

        let mut prf = Shake256::new();

        let mut skpv = KyberPolyVec::<K>::new();
        skpv.getnoise_eta1(&mut prf, noise_seed.as_slice(), 0);
        proof {
            assert forall|j: int| 0 <= j < K implies (#[trigger] skpv.polys()[j]).coeffs()
                == noise1_poly_spec(noiseseed_spec(entropy@), j as u8, K as int) by {
                assert(skpv.polys()[j].coeffs() =~= noise1_poly_spec(
                    noiseseed_spec(entropy@),
                    j as u8,
                    K as int,
                ));
            }
        }
        skpv.ntt_and_reduce();
        proof {
            assert forall|j: int| 0 <= j < K implies (#[trigger] skpv.polys()[j]).coeffs()
                == sk_poly_spec(noiseseed_spec(entropy@), j, K as int) by {
                assert((j as u8) as int == j);
            }
        }
        let mut sk_rows = [[0u8; 384]; K];
        skpv.serialize(&mut sk_rows);
        sk.set_bytes(sk_rows);

        let ghost srows_spec = Seq::new(
            K as nat,
            |j: int| sk_poly_spec(noiseseed_spec(entropy@), j, K as int),
        );
        proof {
            assert(coeff_rows(skpv.polys()) =~= srows_spec);
        }
        let mut e_i = KyberPoly::new();
        let mut pkpv = KyberPolyVec::<K>::new();
        for i in 0..K
            invariant
                K == 2 || K == 3 || K == 4,
                prf.wf(),
                noise_seed@.len() == 32,
                noise_seed@ == noiseseed_spec(entropy@),
                public_seed@.len() == 32,
                public_seed@ == pubseed_spec(entropy@),
                skpv.bounded(1664),
                skpv.polys().len() == K,
                coeff_rows(skpv.polys()) == srows_spec,
                srows_spec == Seq::new(
                    K as nat,
                    |j: int| sk_poly_spec(noiseseed_spec(entropy@), j, K as int),
                ),
                pkpv.polys().len() == K,
                forall|r: int|
                    0 <= r < i ==> (#[trigger] pkpv.polys()[r]).coeffs() == t_poly_spec(
                        pubseed_spec(entropy@),
                        noiseseed_spec(entropy@),
                        r,
                        K as int,
                    ),
                forall|j: int| 0 <= j < i ==> (#[trigger] pkpv.polys()[j]).bounded(32767),
        {
            let mut a_i = KyberPolyVec::<K>::new();
            proof {
                assert forall|j: int| 0 <= j < K implies (#[trigger] a_i.polys()[j]).coeffs()
                    == zero_poly() by {
                    assert(forall|t: int|
                        0 <= t < 256 ==> #[trigger] a_i.polys()[j].coeffs()[t] == 0i16);
                    assert(a_i.polys()[j].coeffs() =~= zero_poly());
                }
            }
            a_i.uniform_xof::<false>(public_seed.as_slice(), i as u8);
            let ghost arow_spec = Seq::new(
                K as nat,
                |j: int| matrix_entry_spec(pubseed_spec(entropy@), false, i as int, j),
            );
            proof {
                assert forall|j: int| 0 <= j < K implies (#[trigger] a_i.polys()[j]).coeffs()
                    == arow_spec[j] by {
                    assert((j as u8) as int == j && (i as u8) as int == i as int);
                }
                assert(coeff_rows(a_i.polys()) =~= arow_spec);
            }
            let mut pk_poly = KyberPoly::new();
            proof {
                assert(pk_poly.coeffs() =~= zero_poly());
            }
            pk_poly.vector_mul_acc(&a_i, &skpv);
            e_i.getnoise_eta1::<K>(&mut prf, noise_seed.as_slice(), (K + i) as u8);
            proof {
                assert(e_i.coeffs() =~= noise1_poly_spec(
                    noiseseed_spec(entropy@),
                    (K + i) as u8,
                    K as int,
                ));
            }
            e_i.ntt();
            pk_poly.into_montgomery();
            proof {
                assert(forall|t: int|
                    0 <= t < 256 ==> -32768 <= (#[trigger] pk_poly.coeffs()[t]) + e_i.coeffs()[t]
                        <= 32767);
            }
            pk_poly.add_assign(&e_i);
            proof {
                assert(pk_poly.bounded(32767));
                assert(pk_poly.coeffs() =~= t_poly_spec(
                    pubseed_spec(entropy@),
                    noiseseed_spec(entropy@),
                    i as int,
                    K as int,
                ));
            }
            pkpv.set_poly(i, pk_poly);
        }
        pkpv.reduce();
        proof {
            assert forall|i: int| 0 <= i < K implies (#[trigger] pkpv.polys()[i]).coeffs()
                == barrett_map(
                t_poly_spec(pubseed_spec(entropy@), noiseseed_spec(entropy@), i, K as int),
            ) by {}
        }
        let mut pk_rows = [[0u8; 384]; K];
        pkpv.serialize(&mut pk_rows);
        pk.bytes = pk_rows;
    }

    /// Encrypt a 32-byte message under `pk` with the 32-byte random
    /// coins: sample `r`, compute `u = A^T*r + e1` and
    /// `v = t*r + e2 + encode(msg)`, and compress both into `ct`.
    pub fn encrypt(msg: &[u8], pk: &PublicKey<K>, coins: &[u8], ct: &mut VecCipherText<K>)
        requires
            K == 2 || K == 3 || K == 4,
            msg@.len() == 32,
            coins@.len() == 32,
            pk.seed@.len() == 32,
            old(ct).wf(),
        ensures
            forall|k: int|
                0 <= k < K ==> #[trigger] final(ct).vec_part(k) == pack_spec(
                    crate::poly_kyber::compressed_seq(
                        enc_u_poly_spec(pk.seed@, coins@, k, K as int),
                        d_vec_of(K as int),
                    ),
                    d_vec_of(K as int),
                    32 * d_vec_of(K as int),
                ),
            final(ct).poly_part() == pack_spec(
                crate::poly_kyber::compressed_seq(
                    enc_v_poly_spec(pk.bytes@, coins@, msg@, K as int),
                    d_poly_of(K as int),
                ),
                d_poly_of(K as int),
                32 * d_poly_of(K as int),
            ),
            final(ct).wf(),
    {
        let mut prf = Shake256::new();
        let mut sp = KyberPolyVec::<K>::new();
        sp.getnoise_eta1(&mut prf, coins, 0);
        let ghost noise_rows = sp.polys();
        proof {
            assert forall|j: int| 0 <= j < K implies (#[trigger] noise_rows[j]).coeffs()
                == noise1_poly_spec(coins@, j as u8, K as int) by {
                assert(noise_rows[j].coeffs() =~= noise1_poly_spec(coins@, j as u8, K as int));
            }
        }
        sp.ntt_and_reduce();
        proof {
            assert forall|j: int| 0 <= j < K implies (#[trigger] sp.polys()[j]).coeffs()
                == enc_r_rows_spec(coins@, K as int)[j] by {
                assert((j as u8) as int == j);
                assert(sp.polys()[j].coeffs() == barrett_map(
                    kyber_ntt_spec(noise_rows[j].coeffs()),
                ));
            }
            assert(coeff_rows(sp.polys()) =~= enc_r_rows_spec(coins@, K as int));
        }
        Self::encrypt_vec_part(pk, coins, &sp, ct);
        Self::encrypt_poly_part(msg, pk, coins, &sp, ct);
    }

    /// Compute and compress the vector part `u = invntt(A^T * r) + e1`.
    fn encrypt_vec_part(
        pk: &PublicKey<K>,
        coins: &[u8],
        sp: &KyberPolyVec<K>,
        ct: &mut VecCipherText<K>,
    )
        requires
            K == 2 || K == 3 || K == 4,
            coins@.len() == 32,
            pk.seed@.len() == 32,
            old(ct).wf(),
            sp.bounded(1664),
            sp.polys().len() == K,
            coeff_rows(sp.polys()) == enc_r_rows_spec(coins@, K as int),
        ensures
            final(ct).wf(),
            forall|k: int|
                0 <= k < K ==> #[trigger] final(ct).vec_part(k) == pack_spec(
                    crate::poly_kyber::compressed_seq(
                        enc_u_poly_spec(pk.seed@, coins@, k, K as int),
                        d_vec_of(K as int),
                    ),
                    d_vec_of(K as int),
                    32 * d_vec_of(K as int),
                ),
            final(ct).poly_part() == old(ct).poly_part(),
    {
        let ghost sp_spec = enc_r_rows_spec(coins@, K as int);
        let mut prf = Shake256::new();
        let mut b = KyberPolyVec::<K>::new();
        for i in 0..K
            invariant
                K == 2 || K == 3 || K == 4,
                pk.seed@.len() == 32,
                coins@.len() == 32,
                prf.wf(),
                sp.bounded(1664),
                sp.polys().len() == K,
                coeff_rows(sp.polys()) == sp_spec,
                sp_spec == enc_r_rows_spec(coins@, K as int),
                b.polys().len() == K,
                forall|r: int|
                    0 <= r < i ==> (#[trigger] b.polys()[r]).coeffs() == barrett_map(
                        dot_acc_spec(
                            zero_poly(),
                            Seq::new(
                                K as nat,
                                |j: int| matrix_entry_spec(pk.seed@, true, r, j),
                            ),
                            sp_spec,
                            K as int,
                        ),
                    ),
                forall|j: int| 0 <= j < i ==> (#[trigger] b.polys()[j]).bounded(1664),
                forall|j: int| i <= j < K ==> (#[trigger] b.polys()[j]).bounded(0),
        {
            let mut a_i = KyberPolyVec::<K>::new();
            proof {
                assert forall|j: int| 0 <= j < K implies (#[trigger] a_i.polys()[j]).coeffs()
                    == zero_poly() by {
                    assert(forall|t: int|
                        0 <= t < 256 ==> #[trigger] a_i.polys()[j].coeffs()[t] == 0i16);
                    assert(a_i.polys()[j].coeffs() =~= zero_poly());
                }
            }
            a_i.uniform_xof::<true>(pk.seed.as_slice(), i as u8);
            let ghost arow_spec = Seq::new(
                K as nat,
                |j: int| matrix_entry_spec(pk.seed@, true, i as int, j),
            );
            proof {
                assert forall|j: int| 0 <= j < K implies (#[trigger] a_i.polys()[j]).coeffs()
                    == arow_spec[j] by {
                    assert((j as u8) as int == j && (i as u8) as int == i as int);
                }
                assert(coeff_rows(a_i.polys()) =~= arow_spec);
            }
            let mut b_poly = b.poly_at(i);
            proof {
                assert(forall|t: int| 0 <= t < 256 ==> #[trigger] b_poly.coeffs()[t] == 0i16);
                assert(b_poly.coeffs() =~= zero_poly());
            }
            b_poly.vector_mul_acc(&a_i, sp);
            b.set_poly(i, b_poly);
        }
        proof {
            assert forall|j: int| 0 <= j < K implies (#[trigger] b.polys()[j]).bounded(3329) by {
                assert(b.polys()[j].bounded(1664));
            }
        }
        b.inv_ntt_tomont();

        let mut ep = KyberPolyVec::<K>::new();
        ep.getnoise_eta2(&mut prf, coins, K as u8);
        proof {
            assert(forall|j: int, t: int|
                0 <= j < K && 0 <= t < 256 ==> -32768 <= (#[trigger] b.polys()[j].coeffs()[t])
                    + ep.polys()[j].coeffs()[t] <= 32767);
        }
        let ghost ep_spec = ep.polys();
        b.add_assign(&ep);
        b.reduce();
        proof {
            assert forall|k: int| 0 <= k < K implies (#[trigger] b.polys()[k]).coeffs()
                == enc_u_poly_spec(pk.seed@, coins@, k, K as int) by {
                assert((k as u8) as int == k && ((K + k) as u8) as int == K + k);
                assert(ep_spec[k].coeffs() =~= noise2_poly_spec(coins@, (K + k) as u8));
                assert(b.polys()[k].coeffs() =~= enc_u_poly_spec(pk.seed@, coins@, k, K as int));
            }
        }
        ct.compress_polyvec(&b);
    }

    /// Compute and compress the polynomial part
    /// `v = invntt(t^T * r) + e2 + encode(msg)`.
    fn encrypt_poly_part(
        msg: &[u8],
        pk: &PublicKey<K>,
        coins: &[u8],
        sp: &KyberPolyVec<K>,
        ct: &mut VecCipherText<K>,
    )
        requires
            K == 2 || K == 3 || K == 4,
            msg@.len() == 32,
            coins@.len() == 32,
            old(ct).wf(),
            sp.bounded(1664),
            sp.polys().len() == K,
            coeff_rows(sp.polys()) == enc_r_rows_spec(coins@, K as int),
        ensures
            final(ct).wf(),
            final(ct).poly_part() == pack_spec(
                crate::poly_kyber::compressed_seq(
                    enc_v_poly_spec(pk.bytes@, coins@, msg@, K as int),
                    d_poly_of(K as int),
                ),
                d_poly_of(K as int),
                32 * d_poly_of(K as int),
            ),
            forall|k: int| 0 <= k < K ==> #[trigger] final(ct).vec_part(k) == old(ct).vec_part(k),
    {
        let mut prf = Shake256::new();
        let pkpv = KyberPolyVec::<K>::from_bytes(&pk.bytes);
        let ghost tr_spec = Seq::new(K as nat, |j: int| unpack_poly_spec(pk.bytes@[j]@));
        proof {
            assert forall|j: int| 0 <= j < K implies (#[trigger] pkpv.polys()[j]).coeffs()
                == tr_spec[j] by {
                assert(pkpv.polys()[j].coeffs() =~= unpack_poly_spec(pk.bytes@[j]@));
            }
            assert(coeff_rows(pkpv.polys()) =~= tr_spec);
        }
        let mut v = KyberPoly::new();
        proof {
            assert(v.coeffs() =~= zero_poly());
        }
        v.vector_mul_acc(&pkpv, sp);
        v.inv_ntt();
        let mut epp = KyberPoly::new();
        epp.getnoise_eta2(&mut prf, coins, 2 * (K as u8));
        proof {
            assert(epp.coeffs() =~= noise2_poly_spec(coins@, (2 * (K as int)) as u8));
            assert(forall|t: int|
                0 <= t < 256 ==> -32768 <= (#[trigger] v.coeffs()[t]) + epp.coeffs()[t] <= 32767);
        }
        v.add_assign(&epp);
        let m_poly = KyberPoly::from_message(msg);
        proof {
            assert(m_poly.coeffs() =~= msg_poly_spec(msg@));
            assert(forall|t: int|
                0 <= t < 256 ==> -32768 <= (#[trigger] v.coeffs()[t]) + m_poly.coeffs()[t]
                    <= 32767);
        }
        v.add_assign(&m_poly);
        v.reduce();
        proof {
            assert(v.coeffs() =~= enc_v_poly_spec(pk.bytes@, coins@, msg@, K as int));
        }
        ct.compress_poly(&v);
    }

    /// Decrypt `ct` under `sk`: decompress the vector part, move it to
    /// the NTT domain, take the inner product with `s`, return from the
    /// NTT domain, subtract from the decompressed polynomial part, and
    /// decode each coefficient to its nearest message bit.
    pub fn decrypt(ct: &VecCipherText<K>, sk: &CPASecretKey<K>, msg: &mut [u8])
        requires
            K == 2 || K == 3 || K == 4,
            ct.wf(),
            old(msg)@.len() == 32,
        ensures
            final(msg)@ == decrypt_spec(*ct, sk.rows()),
            final(msg)@.len() == 32,
    {
        let mut b = KyberPolyVec::<K>::new();
        ct.decompress_polyvec(&mut b);
        proof {
            assert forall|k: int| 0 <= k < K implies (#[trigger] b.polys()[k]).coeffs()
                == decomp_poly_spec(ct.vec_part(k), d_vec_of(K as int)) by {
                assert(b.polys()[k].coeffs() =~= decomp_poly_spec(
                    ct.vec_part(k),
                    d_vec_of(K as int),
                ));
            }
        }
        b.ntt_and_reduce();
        let ghost b_spec = Seq::new(
            K as nat,
            |k: int|
                barrett_map(
                    kyber_ntt_spec(decomp_poly_spec(ct.vec_part(k), d_vec_of(K as int))),
                ),
        );
        proof {
            assert(coeff_rows(b.polys()) =~= b_spec);
        }

        let skpv = KyberPolyVec::<K>::from_bytes(sk.bytes());
        let ghost s_spec = Seq::new(K as nat, |k: int| unpack_poly_spec(sk.rows()[k]@));
        proof {
            assert forall|k: int| 0 <= k < K implies (#[trigger] skpv.polys()[k]).coeffs()
                == unpack_poly_spec(sk.rows()[k]@) by {
                assert(skpv.polys()[k].coeffs() =~= unpack_poly_spec(sk.rows()[k]@));
            }
            assert(coeff_rows(skpv.polys()) =~= s_spec);
        }

        let mut mp = KyberPoly::new();
        proof {
            assert(mp.coeffs() =~= zero_poly());
        }
        skpv.basemul_acc(&b, &mut mp);
        mp.inv_ntt();
        proof {
            assert(mp.coeffs() == kyber_inv_ntt_spec(
                barrett_map(dot_acc_spec(zero_poly(), s_spec, b_spec, K as int)),
            ));
        }

        let mut v = KyberPoly::new();
        ct.decompress_poly(&mut v);
        proof {
            assert(v.coeffs() =~= decomp_poly_spec(ct.poly_part(), d_poly_of(K as int)));
            assert(forall|t: int|
                0 <= t < 256 ==> -32768 <= (#[trigger] mp.coeffs()[t]) - v.coeffs()[t] <= 32767);
        }
        let ghost mp_pre = mp.coeffs();
        let ghost v_spec = v.coeffs();
        mp.sub_assign(&v);
        proof {
            assert(mp.coeffs() =~= Seq::new(256, |i: int| (mp_pre[i] - v_spec[i]) as i16));
        }

        mp.into_message(msg);
    }
}

/// Generate a Kyber key pair from 32 bytes of entropy.
pub fn keypair<const K: usize>(entropy: &[u8], sk: &mut CPASecretKey<K>, pk: &mut PublicKey<K>)
    requires
        K == 2 || K == 3 || K == 4,
        entropy@.len() == 32,
    ensures
        final(pk).seed@ == pubseed_spec(entropy@),
        forall|j: int|
            0 <= j < K ==> (#[trigger] final(sk).rows()[j])@ == pack_spec(
                canon_u16(sk_poly_spec(noiseseed_spec(entropy@), j, K as int)),
                12,
                384,
            ),
        forall|i: int|
            0 <= i < K ==> (#[trigger] final(pk).bytes@[i])@ == pack_spec(
                canon_u16(
                    barrett_map(
                        t_poly_spec(pubseed_spec(entropy@), noiseseed_spec(entropy@), i, K as int),
                    ),
                ),
                12,
                384,
            ),
        final(pk).seed@.len() == 32,
        final(sk).rows().len() == K,
{
    KyberPke::<K>::keypair(entropy, sk, pk)
}

/// Encrypt a 32-byte message under a Kyber public key.
pub fn encrypt<const K: usize>(
    msg: &[u8],
    pk: &PublicKey<K>,
    coins: &[u8],
    ct: &mut VecCipherText<K>,
)
    requires
        K == 2 || K == 3 || K == 4,
        msg@.len() == 32,
        coins@.len() == 32,
        pk.seed@.len() == 32,
        old(ct).wf(),
    ensures
        forall|k: int|
            0 <= k < K ==> #[trigger] final(ct).vec_part(k) == pack_spec(
                crate::poly_kyber::compressed_seq(
                    enc_u_poly_spec(pk.seed@, coins@, k, K as int),
                    d_vec_of(K as int),
                ),
                d_vec_of(K as int),
                32 * d_vec_of(K as int),
            ),
        final(ct).poly_part() == pack_spec(
            crate::poly_kyber::compressed_seq(
                enc_v_poly_spec(pk.bytes@, coins@, msg@, K as int),
                d_poly_of(K as int),
            ),
            d_poly_of(K as int),
            32 * d_poly_of(K as int),
        ),
        final(ct).wf(),
{
    KyberPke::<K>::encrypt(msg, pk, coins, ct)
}

/// Decrypt a Kyber ciphertext to its 32-byte message.
pub fn decrypt<const K: usize>(ct: &VecCipherText<K>, sk: &CPASecretKey<K>, msg: &mut [u8])
    requires
        K == 2 || K == 3 || K == 4,
        ct.wf(),
        old(msg)@.len() == 32,
    ensures
        final(msg)@ == decrypt_spec(*ct, sk.rows()),
        final(msg)@.len() == 32,
{
    KyberPke::<K>::decrypt(ct, sk, msg)
}

} // verus!
