//! Fixed-length vectors of Kyber polynomials: componentwise transforms,
//! noise and uniform expansion, the NTT-domain multiply-accumulate, and
//! 12-bit (de)serialization of the whole vector.

use crate::codec::pack_spec;
use crate::fips202::{shake256_spec, Shake256};
use crate::poly_dilithium::DilithiumPoly;
use crate::poly_kyber::{
    barrett_map, canon_u16, cbd2_coeff, cbd3_coeff, kyber_inv_ntt_spec, kyber_ntt_spec,
    pointwise_term, uniform_loop_spec, unpacked_field_i16, KyberPoly,
};
use vstd::prelude::*;

verus! {

broadcast use vstd::array::group_array_axioms, crate::poly_kyber::kyber_poly_len, crate::poly_dilithium::dilithium_poly_len;

/// A vector of `K` Kyber polynomials.
#[derive(Clone, Copy)]
pub struct KyberPolyVec<const K: usize> {
    p: [KyberPoly; K],
}

/// Every polynomial of `s` has all coefficients in `[-b, b]`.
pub open spec fn vec_bounded(s: Seq<KyberPoly>, b: int) -> bool {
    forall|j: int| 0 <= j < s.len() ==> (#[trigger] s[j]).bounded(b)
}

/// The coefficient rows of a sequence of polynomials.
pub open spec fn coeff_rows(s: Seq<KyberPoly>) -> Seq<Seq<i16>> {
    Seq::new(s.len(), |j: int| s[j].coeffs())
}

/// The accumulator after adding the pointwise products of the first `n`
/// polynomial pairs, coefficient by coefficient.
pub open spec fn dot_acc_spec(acc: Seq<i16>, a: Seq<Seq<i16>>, b: Seq<Seq<i16>>, n: int) -> Seq<
    i16,
>
    decreases n,
{
    if n <= 0 {
        acc
    } else {
        let prev = dot_acc_spec(acc, a, b, n - 1);
        Seq::new(256, |k: int| (prev[k] + pointwise_term(a[n - 1], b[n - 1], k)) as i16)
    }
}

impl<const K: usize> KyberPolyVec<K> {
    pub closed spec fn polys(&self) -> Seq<KyberPoly> {
        self.p@
    }

    pub open spec fn bounded(&self, b: int) -> bool {
        vec_bounded(self.polys(), b)
    }

    /// The all-zero vector.
    pub fn new() -> (r: KyberPolyVec<K>)
        ensures
            r.polys().len() == K,
            r.bounded(0),
    {
        let zero = KyberPoly::new();
        let r = KyberPolyVec { p: [zero; K] };
        proof {
            assert forall|j: int| 0 <= j < K implies (#[trigger] r.polys()[j]).bounded(0) by {
                assert(r.polys()[j] == zero);
            }
        }
        r
    }

    pub fn poly_at(&self, i: usize) -> (r: KyberPoly)
        requires
            i < K,
        ensures
            r == self.polys()[i as int],
    {
        self.p[i]
    }

    pub fn set_poly(&mut self, i: usize, v: KyberPoly)
        requires
            i < K,
        ensures
            final(self).polys() == old(self).polys().update(i as int, v),
    {
        self.p[i] = v;
    }

    /// Forward NTT on every polynomial.
    pub fn ntt(&mut self)
        requires
            old(self).bounded(3329),
        ensures
            forall|j: int|
                0 <= j < K ==> (#[trigger] final(self).polys()[j]).coeffs() == kyber_ntt_spec(
                    old(self).polys()[j].coeffs(),
                ),
            final(self).bounded(26632),
            final(self).polys().len() == K,
    {
        let ghost s0 = self.polys();
        for i in 0..K
            invariant
                self.polys().len() == K,
                s0.len() == K,
                vec_bounded(s0, 3329),
                forall|j: int| i <= j < K ==> #[trigger] self.polys()[j] == s0[j],
                forall|j: int|
                    0 <= j < i ==> (#[trigger] self.polys()[j]).coeffs() == kyber_ntt_spec(
                        s0[j].coeffs(),
                    ),
                forall|j: int| 0 <= j < i ==> (#[trigger] self.polys()[j]).bounded(26632),
        {
            let mut t = self.p[i];
            t.ntt();
            self.p[i] = t;
        }
    }

    /// Forward NTT followed by a Barrett reduction on every polynomial.
    pub fn ntt_and_reduce(&mut self)
        requires
            old(self).bounded(3329),
        ensures
            forall|j: int|
                0 <= j < K ==> (#[trigger] final(self).polys()[j]).coeffs() == barrett_map(
                    kyber_ntt_spec(old(self).polys()[j].coeffs()),
                ),
            final(self).bounded(1664),
            final(self).polys().len() == K,
    {
        let ghost s0 = self.polys();
        for i in 0..K
            invariant
                self.polys().len() == K,
                s0.len() == K,
                vec_bounded(s0, 3329),
                forall|j: int| i <= j < K ==> #[trigger] self.polys()[j] == s0[j],
                forall|j: int|
                    0 <= j < i ==> (#[trigger] self.polys()[j]).coeffs() == barrett_map(
                        kyber_ntt_spec(s0[j].coeffs()),
                    ),
                forall|j: int| 0 <= j < i ==> (#[trigger] self.polys()[j]).bounded(1664),
        {
            let mut t = self.p[i];
            t.ntt_and_reduce();
            self.p[i] = t;
        }
    }

    /// Inverse NTT on every polynomial; the Montgomery factor of the
    /// scale constant moves results into the Montgomery domain.
    pub fn inv_ntt_tomont(&mut self)
        requires
            old(self).bounded(3329),
        ensures
            forall|j: int|
                0 <= j < K ==> (#[trigger] final(self).polys()[j]).coeffs() == kyber_inv_ntt_spec(
                    old(self).polys()[j].coeffs(),
                ),
            final(self).bounded(3328),
            final(self).polys().len() == K,
    {
        let ghost s0 = self.polys();
        for i in 0..K
            invariant
                self.polys().len() == K,
                s0.len() == K,
                vec_bounded(s0, 3329),
                forall|j: int| i <= j < K ==> #[trigger] self.polys()[j] == s0[j],
                forall|j: int|
                    0 <= j < i ==> (#[trigger] self.polys()[j]).coeffs() == kyber_inv_ntt_spec(
                        s0[j].coeffs(),
                    ),
                forall|j: int| 0 <= j < i ==> (#[trigger] self.polys()[j]).bounded(3328),
        {
            let mut t = self.p[i];
            t.inv_ntt();
            self.p[i] = t;
        }
    }

    /// Barrett-reduce every coefficient of every polynomial.
    pub fn reduce(&mut self)
        ensures
            forall|j: int|
                0 <= j < K ==> (#[trigger] final(self).polys()[j]).coeffs() == barrett_map(
                    old(self).polys()[j].coeffs(),
                ),
            final(self).bounded(1664),
            final(self).polys().len() == K,
    {
        let ghost s0 = self.polys();
        for i in 0..K
            invariant
                self.polys().len() == K,
                s0.len() == K,
                forall|j: int| i <= j < K ==> #[trigger] self.polys()[j] == s0[j],
                forall|j: int|
                    0 <= j < i ==> (#[trigger] self.polys()[j]).coeffs() == barrett_map(
                        s0[j].coeffs(),
                    ),
                forall|j: int| 0 <= j < i ==> (#[trigger] self.polys()[j]).bounded(1664),
        {
            let mut t = self.p[i];
            t.reduce();
            self.p[i] = t;
        }
    }

    /// Add `other` componentwise; sums must fit the coefficient type.
    pub fn add_assign(&mut self, other: &KyberPolyVec<K>)
        requires
            forall|j: int, i: int|
                0 <= j < K && 0 <= i < 256 ==> -32768 <= (#[trigger] old(self).polys()[j].coeffs()[i])
                    + other.polys()[j].coeffs()[i] <= 32767,
            forall|j: int| 0 <= j < K ==> (#[trigger] old(self).polys()[j]).coeffs().len() == 256,
            forall|j: int| 0 <= j < K ==> (#[trigger] other.polys()[j]).coeffs().len() == 256,
        ensures
            forall|j: int, i: int|
                0 <= j < K && 0 <= i < 256 ==> (#[trigger] final(self).polys()[j].coeffs()[i])
                    == old(self).polys()[j].coeffs()[i] + other.polys()[j].coeffs()[i],
            final(self).polys().len() == K,
    {
        let ghost s0 = self.polys();
        for i in 0..K
            invariant
                self.polys().len() == K,
                s0.len() == K,
                other.polys().len() == K,
                forall|j: int, t: int|
                    0 <= j < K && 0 <= t < 256 ==> -32768 <= (#[trigger] s0[j].coeffs()[t])
                        + other.polys()[j].coeffs()[t] <= 32767,
                forall|j: int| 0 <= j < K ==> (#[trigger] s0[j]).coeffs().len() == 256,
                forall|j: int| 0 <= j < K ==> (#[trigger] other.polys()[j]).coeffs().len() == 256,
                forall|j: int| i <= j < K ==> self.polys()[j] == s0[j],
                forall|j: int, t: int|
                    0 <= j < i && 0 <= t < 256 ==> (#[trigger] self.polys()[j].coeffs()[t])
                        == s0[j].coeffs()[t] + other.polys()[j].coeffs()[t],
        {
            let mut t = self.p[i];
            let o = other.poly_at(i);
            proof {
                assert(t == s0[i as int] && o == other.polys()[i as int]);
                assert forall|tt: int| 0 <= tt < 256 implies -32768 <= (#[trigger] t.coeffs()[tt])
                    + o.coeffs()[tt] <= 32767 by {
                    assert(-32768 <= s0[i as int].coeffs()[tt] + other.polys()[i as int].coeffs()[tt]
                        <= 32767);
                }
            }
            t.add_assign(&o);
            self.p[i] = t;
        }
    }

    /// NTT-domain inner product: accumulate the pointwise products of
    /// corresponding polynomials onto `result` and Barrett-reduce it;
    /// the caller zeroes `result` first when the plain dot product is
    /// wanted.
    pub fn basemul_acc(&self, other: &KyberPolyVec<K>, result: &mut KyberPoly)
        requires
            K <= 4,
            self.bounded(4095),
            other.bounded(1664),
            old(result).bounded(1664),
        ensures
            final(result).coeffs() == barrett_map(
                dot_acc_spec(
                    old(result).coeffs(),
                    coeff_rows(self.polys()),
                    coeff_rows(other.polys()),
                    K as int,
                ),
            ),
            final(result).bounded(1664),
    {
        let ghost s0 = result.coeffs();
        for i in 0..K
            invariant
                K <= 4,
                self.polys().len() == K,
                other.polys().len() == K,
                s0.len() == 256,
                self.bounded(4095),
                other.bounded(1664),
                result.coeffs() == dot_acc_spec(
                    s0,
                    coeff_rows(self.polys()),
                    coeff_rows(other.polys()),
                    i as int,
                ),
                forall|k: int|
                    0 <= k < 256 ==> -1664 - i * 6900 <= #[trigger] result.coeffs()[k] <= 1664 + i
                        * 6900,
                result.coeffs().len() == 256,
        {
            let a = self.p[i];
            let b = other.poly_at(i);
            proof {
                assert(a.bounded(4095) && b.bounded(1664));
                assert(result.bounded(22400));
            }
            let ghost pre = result.coeffs();
            a.pointwise_acc(&b, result);
            proof {
                assert(result.coeffs() =~= dot_acc_spec(
                    s0,
                    coeff_rows(self.polys()),
                    coeff_rows(other.polys()),
                    i + 1,
                ));
            }
        }
        result.reduce();
        proof {
            assert(result.coeffs() =~= barrett_map(
                dot_acc_spec(
                    s0,
                    coeff_rows(self.polys()),
                    coeff_rows(other.polys()),
                    K as int,
                ),
            ));
        }
    }

    /// Sample all `K` polynomials from `eta1` centered binomial noise at
    /// consecutive nonces.
    pub fn getnoise_eta1(&mut self, prf: &mut Shake256, seed: &[u8], nonce: u8)
        requires
            old(prf).wf(),
            seed@.len() == 32,
            K == 2 || K == 3 || K == 4,
            nonce + K <= 256,
        ensures
            K == 2 ==> forall|j: int, k: int|
                0 <= j < K && 0 <= k < 256 ==> (#[trigger] final(self).polys()[j].coeffs()[k]) as int
                    == cbd3_coeff(shake256_spec(seed@ + seq![(nonce + j) as u8], 192), k),
            K != 2 ==> forall|j: int, k: int|
                0 <= j < K && 0 <= k < 256 ==> (#[trigger] final(self).polys()[j].coeffs()[k]) as int
                    == cbd2_coeff(shake256_spec(seed@ + seq![(nonce + j) as u8], 128), k),
            final(self).bounded(3),
            final(self).polys().len() == K,
            final(prf).wf(),
    {
        for i in 0..K
            invariant
                prf.wf(),
                seed@.len() == 32,
                K == 2 || K == 3 || K == 4,
                nonce + K <= 256,
                self.polys().len() == K,
                K == 2 ==> forall|j: int, k: int|
                    0 <= j < i && 0 <= k < 256 ==> (#[trigger] self.polys()[j].coeffs()[k]) as int
                        == cbd3_coeff(shake256_spec(seed@ + seq![(nonce + j) as u8], 192), k),
                K != 2 ==> forall|j: int, k: int|
                    0 <= j < i && 0 <= k < 256 ==> (#[trigger] self.polys()[j].coeffs()[k]) as int
                        == cbd2_coeff(shake256_spec(seed@ + seq![(nonce + j) as u8], 128), k),
                forall|j: int| 0 <= j < i ==> (#[trigger] self.polys()[j]).bounded(3),
        {
            let mut t = self.p[i];
            if K == 2 {
                t.getnoise_eta1::<2>(prf, seed, nonce + i as u8);
            } else {
                t.getnoise_eta2(prf, seed, nonce + i as u8);
            }
            self.p[i] = t;
        }
    }

    /// Sample all `K` polynomials from `eta = 2` centered binomial noise
    /// at consecutive nonces.
    pub fn getnoise_eta2(&mut self, prf: &mut Shake256, seed: &[u8], nonce: u8)
        requires
            old(prf).wf(),
            seed@.len() == 32,
            K <= 4,
            nonce + K <= 256,
        ensures
            forall|j: int, k: int|
                0 <= j < K && 0 <= k < 256 ==> (#[trigger] final(self).polys()[j].coeffs()[k]) as int
                    == cbd2_coeff(shake256_spec(seed@ + seq![(nonce + j) as u8], 128), k),
            final(self).bounded(3),
            final(self).polys().len() == K,
            final(prf).wf(),
    {
        for i in 0..K
            invariant
                prf.wf(),
                seed@.len() == 32,
                K <= 4,
                nonce + K <= 256,
                self.polys().len() == K,
                forall|j: int, k: int|
                    0 <= j < i && 0 <= k < 256 ==> (#[trigger] self.polys()[j].coeffs()[k]) as int
                        == cbd2_coeff(shake256_spec(seed@ + seq![(nonce + j) as u8], 128), k),
                forall|j: int| 0 <= j < i ==> (#[trigger] self.polys()[j]).bounded(3),
        {
            let mut t = self.p[i];
            t.getnoise_eta2(prf, seed, nonce + i as u8);
            self.p[i] = t;
        }
    }

    /// Fill one row of the public matrix (or its transpose) by uniform
    /// rejection sampling: polynomial `j` is drawn from the SHAKE128
    /// stream of the seed with nonces `(i, j)` when transposed and
    /// `(j, i)` otherwise.
    pub fn uniform_xof<const TRANSPOSED: bool>(&mut self, seed: &[u8], i: u8)
        requires
            seed@.len() == 32,
            K <= 4,
        ensures
            forall|j: int|
                0 <= j < K ==> (#[trigger] final(self).polys()[j]).coeffs() == uniform_loop_spec(
                    old(self).polys()[j].coeffs(),
                    0,
                    crate::keccak::absorb_spec(
                        seed@ + if TRANSPOSED {
                            seq![i, j as u8]
                        } else {
                            seq![j as u8, i]
                        },
                        21,
                        0x1f,
                    ),
                    0,
                ).0,
            forall|j: int, k: int|
                0 <= j < K && 0 <= k < 256 ==> 0 <= (#[trigger] final(self).polys()[j].coeffs()[k])
                    <= 3328,
            final(self).bounded(4095),
            final(self).polys().len() == K,
    {
        let ghost s0 = self.polys();
        for j in 0..K
            invariant
                seed@.len() == 32,
                K <= 4,
                self.polys().len() == K,
                s0.len() == K,
                forall|jj: int| j <= jj < K ==> #[trigger] self.polys()[jj] == s0[jj],
                forall|jj: int|
                    0 <= jj < j ==> (#[trigger] self.polys()[jj]).coeffs() == uniform_loop_spec(
                        s0[jj].coeffs(),
                        0,
                        crate::keccak::absorb_spec(
                            seed@ + if TRANSPOSED {
                                seq![i, jj as u8]
                            } else {
                                seq![jj as u8, i]
                            },
                            21,
                            0x1f,
                        ),
                        0,
                    ).0,
                forall|jj: int, k: int|
                    0 <= jj < j && 0 <= k < 256 ==> 0 <= (#[trigger] self.polys()[jj].coeffs()[k])
                        <= 3328,
        {
            let mut t = self.p[j];
            if TRANSPOSED {
                t.uniform(seed, i, j as u8);
            } else {
                t.uniform(seed, j as u8, i);
            }
            self.p[j] = t;
        }
        proof {
            assert forall|j: int| 0 <= j < K implies (#[trigger] self.polys()[j]).bounded(4095) by {
                assert(forall|k: int|
                    0 <= k < 256 ==> 0 <= (#[trigger] self.polys()[j].coeffs()[k]) <= 3328);
            }
        }
    }

    /// Serialize each polynomial into 384 bytes of 12-bit fields.
    pub fn serialize(&self, out: &mut [[u8; 384]; K])
        requires
            self.bounded(3328),
        ensures
            forall|j: int|
                0 <= j < K ==> (#[trigger] final(out)@[j])@ == pack_spec(
                    canon_u16(self.polys()[j].coeffs()),
                    12,
                    384,
                ),
    {
        for j in 0..K
            invariant
                self.polys().len() == K,
                self.bounded(3328),
                out@.len() == K,
                forall|t: int|
                    0 <= t < j ==> (#[trigger] out@[t])@ == pack_spec(
                        canon_u16(self.polys()[t].coeffs()),
                        12,
                        384,
                    ),
        {
            let mut buf = [0u8; 384];
            let p = self.p[j];
            p.to_bytes(vstd::array::ref_mut_array_unsizing_coercion(&mut buf));
            out[j] = buf;
        }
    }

    /// Deserialize each polynomial from 384 bytes of 12-bit fields; the
    /// coefficients land in `[0, 4096)`.
    pub fn deserialize(&mut self, bytes: &[[u8; 384]; K])
        ensures
            forall|j: int, i: int|
                0 <= j < K && 0 <= i < 256 ==> (#[trigger] final(self).polys()[j].coeffs()[i])
                    == unpacked_field_i16(bytes@[j]@, i),
            forall|j: int, i: int|
                0 <= j < K && 0 <= i < 256 ==> 0 <= (#[trigger] final(self).polys()[j].coeffs()[i])
                    <= 4095,
            final(self).polys().len() == K,
    {
        for j in 0..K
            invariant
                self.polys().len() == K,
                bytes@.len() == K,
                forall|t: int, i: int|
                    0 <= t < j && 0 <= i < 256 ==> (#[trigger] self.polys()[t].coeffs()[i])
                        == unpacked_field_i16(bytes@[t]@, i),
                forall|t: int, i: int|
                    0 <= t < j && 0 <= i < 256 ==> 0 <= (#[trigger] self.polys()[t].coeffs()[i])
                        <= 4095,
        {
            let mut t = self.p[j];
            let row: [u8; 384] = bytes[j];
            t.from_bytes(row.as_slice());
            self.p[j] = t;
        }
    }

    /// A vector deserialized from `K` rows of 384 bytes.
    pub fn from_bytes(bytes: &[[u8; 384]; K]) -> (r: KyberPolyVec<K>)
        ensures
            forall|j: int, i: int|
                0 <= j < K && 0 <= i < 256 ==> (#[trigger] r.polys()[j].coeffs()[i])
                    == unpacked_field_i16(bytes@[j]@, i),
            forall|j: int, i: int|
                0 <= j < K && 0 <= i < 256 ==> 0 <= (#[trigger] r.polys()[j].coeffs()[i]) <= 4095,
            r.polys().len() == K,
            r.bounded(4095),
    {
        let mut pv = KyberPolyVec::<K>::new();
        pv.deserialize(bytes);
        proof {
            assert forall|j: int| 0 <= j < K implies (#[trigger] pv.polys()[j]).bounded(4095) by {
                assert(forall|i: int|
                    0 <= i < 256 ==> 0 <= (#[trigger] pv.polys()[j].coeffs()[i]) <= 4095);
            }
        }
        pv
    }

    /// A vector deserialized from `K` rows of 384 bytes.
    pub fn new_deserialize(bytes: &[[u8; 384]; K]) -> (r: KyberPolyVec<K>)
        ensures
            forall|j: int, i: int|
                0 <= j < K && 0 <= i < 256 ==> (#[trigger] r.polys()[j].coeffs()[i])
                    == unpacked_field_i16(bytes@[j]@, i),
            r.polys().len() == K,
            r.bounded(4095),
    {
        KyberPolyVec::<K>::from_bytes(bytes)
    }
}

/// A vector of `K` Dilithium polynomials: componentwise transforms and
/// reductions.
#[derive(Clone, Copy)]
pub struct DilithiumPolyVec<const K: usize> {
    p: [DilithiumPoly; K],
}

/// Every polynomial of `s` has all coefficients in `[-b, b]`.
pub open spec fn dvec_bounded(s: Seq<DilithiumPoly>, b: int) -> bool {
    forall|j: int| 0 <= j < s.len() ==> (#[trigger] s[j]).bounded(b)
}

impl<const K: usize> DilithiumPolyVec<K> {
    pub closed spec fn polys(&self) -> Seq<DilithiumPoly> {
        self.p@
    }

    pub open spec fn bounded(&self, b: int) -> bool {
        dvec_bounded(self.polys(), b)
    }

    /// The all-zero vector.
    pub fn new() -> (r: DilithiumPolyVec<K>)
        ensures
            r.polys().len() == K,
            r.bounded(0),
    {
        let zero = DilithiumPoly::new();
        let r = DilithiumPolyVec { p: [zero; K] };
        proof {
            assert forall|j: int| 0 <= j < K implies (#[trigger] r.polys()[j]).bounded(0) by {
                assert(r.polys()[j] == zero);
            }
        }
        r
    }

    pub fn poly_at(&self, i: usize) -> (r: DilithiumPoly)
        requires
            i < K,
        ensures
            r == self.polys()[i as int],
    {
        self.p[i]
    }

    pub fn set_poly(&mut self, i: usize, v: DilithiumPoly)
        requires
            i < K,
        ensures
            final(self).polys() == old(self).polys().update(i as int, v),
    {
        self.p[i] = v;
    }

    /// Forward NTT on every polynomial.
    pub fn ntt(&mut self)
        requires
            old(self).bounded(8380417),
        ensures
            forall|j: int|
                0 <= j < K ==> (#[trigger] final(self).polys()[j]).coeffs()
                    == crate::poly_dilithium::dilithium_ntt_spec(old(self).polys()[j].coeffs()),
            final(self).bounded(75423753),
            final(self).polys().len() == K,
    {
        let ghost s0 = self.polys();
        for i in 0..K
            invariant
                self.polys().len() == K,
                s0.len() == K,
                dvec_bounded(s0, 8380417),
                forall|j: int| i <= j < K ==> #[trigger] self.polys()[j] == s0[j],
                forall|j: int|
                    0 <= j < i ==> (#[trigger] self.polys()[j]).coeffs()
                        == crate::poly_dilithium::dilithium_ntt_spec(s0[j].coeffs()),
                forall|j: int| 0 <= j < i ==> (#[trigger] self.polys()[j]).bounded(75423753),
        {
            let mut t = self.p[i];
            t.ntt();
            self.p[i] = t;
        }
    }

    /// Inverse NTT on every polynomial.
    pub fn inv_ntt(&mut self)
        requires
            old(self).bounded(8380416),
        ensures
            forall|j: int|
                0 <= j < K ==> (#[trigger] final(self).polys()[j]).coeffs()
                    == crate::poly_dilithium::dilithium_inv_ntt_spec(old(self).polys()[j].coeffs()),
            final(self).bounded(8380416),
            final(self).polys().len() == K,
    {
        let ghost s0 = self.polys();
        for i in 0..K
            invariant
                self.polys().len() == K,
                s0.len() == K,
                dvec_bounded(s0, 8380416),
                forall|j: int| i <= j < K ==> #[trigger] self.polys()[j] == s0[j],
                forall|j: int|
                    0 <= j < i ==> (#[trigger] self.polys()[j]).coeffs()
                        == crate::poly_dilithium::dilithium_inv_ntt_spec(s0[j].coeffs()),
                forall|j: int| 0 <= j < i ==> (#[trigger] self.polys()[j]).bounded(8380416),
        {
            let mut t = self.p[i];
            t.inv_ntt();
            self.p[i] = t;
        }
    }

    /// Map every coefficient of every polynomial to its canonical
    /// representative.
    pub fn reduce(&mut self)
        requires
            forall|j: int, t: int|
                0 <= j < K && 0 <= t < 256 ==> (#[trigger] old(self).polys()[j].coeffs()[t])
                    <= 2143289343,
        ensures
            forall|j: int, t: int|
                0 <= j < K && 0 <= t < 256 ==> (#[trigger] final(self).polys()[j].coeffs()[t]) as int
                    == (old(self).polys()[j].coeffs()[t] as int) % crate::fq_dilithium::dq(),
            final(self).polys().len() == K,
    {
        let ghost s0 = self.polys();
        for i in 0..K
            invariant
                self.polys().len() == K,
                s0.len() == K,
                forall|j: int, t: int|
                    0 <= j < K && 0 <= t < 256 ==> (#[trigger] s0[j].coeffs()[t]) <= 2143289343,
                forall|j: int| i <= j < K ==> #[trigger] self.polys()[j] == s0[j],
                forall|j: int, t: int|
                    0 <= j < i && 0 <= t < 256 ==> (#[trigger] self.polys()[j].coeffs()[t]) as int
                        == (s0[j].coeffs()[t] as int) % crate::fq_dilithium::dq(),
        {
            let mut t = self.p[i];
            proof {
                assert(t == s0[i as int]);
                assert forall|tt: int| 0 <= tt < 256 implies (#[trigger] t.coeffs()[tt])
                    <= 2143289343 by {
                    assert(s0[i as int].coeffs()[tt] <= 2143289343);
                }
            }
            t.reduce();
            self.p[i] = t;
        }
    }
}

impl KyberPoly {
    /// Accumulate the NTT-domain inner product of two vectors onto
    /// `self`, then reduce: `self := reduce(self + sum a[i] * b[i])`.
    pub fn vector_mul_acc<const K: usize>(
        &mut self,
        a: &KyberPolyVec<K>,
        b: &KyberPolyVec<K>,
    )
        requires
            K <= 4,
            a.bounded(4095),
            b.bounded(1664),
            old(self).bounded(1664),
        ensures
            final(self).coeffs() == barrett_map(
                dot_acc_spec(
                    old(self).coeffs(),
                    coeff_rows(a.polys()),
                    coeff_rows(b.polys()),
                    K as int,
                ),
            ),
            final(self).bounded(1664),
    {
        a.basemul_acc(b, self);
    }
}

} // verus!
