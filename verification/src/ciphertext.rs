//! Compressed Kyber ciphertexts: the vector part at `d_vec` bits per
//! coefficient followed by the polynomial part at `d_poly` bits, in one
//! contiguous little-endian bit layout. Two storage shapes expose the
//! same bytes: a stack-resident chunked form and a heap-resident vector.

use crate::codec::pack_spec;
use crate::poly_kyber::{compressed_seq, decompress_spec, unpacked_field, KyberPoly};
use crate::polyvec::KyberPolyVec;
use crate::utils::{byte_vec, copy_into_vec, sub_bytes};
use vstd::prelude::*;

verus! {

broadcast use vstd::array::group_array_axioms, crate::poly_kyber::kyber_poly_len;

/// Bytes of one polynomial compressed to `d` bits per coefficient.
pub fn poly_compressed_bytes(d: usize) -> (r: usize)
    requires
        d <= 16,
    ensures
        r == 32 * d,
{
    32 * d
}

/// Compression width of the polynomial part for dimension `K`.
pub open spec fn d_poly_of(k: int) -> int {
    if k == 4 {
        5
    } else {
        4
    }
}

/// Compression width of the vector part for dimension `K`.
pub open spec fn d_vec_of(k: int) -> int {
    if k == 4 {
        11
    } else {
        10
    }
}

/// Bytes of the compressed polynomial part for dimension `K`.
pub fn poly_compressed_bytes_for_k<const K: usize>() -> (r: usize)
    requires
        K == 2 || K == 3 || K == 4,
    ensures
        r == 32 * d_poly_of(K as int),
{
    if K == 4 {
        160
    } else {
        128
    }
}

/// Bytes of the compressed vector part for dimension `K`.
pub fn polyvec_compressed_bytes_for_k<const K: usize>() -> (r: usize)
    requires
        K == 2 || K == 3 || K == 4,
    ensures
        r == K * 32 * d_vec_of(K as int),
{
    if K == 4 {
        1408
    } else {
        K * 320
    }
}

/// Total ciphertext bytes for dimension `K`.
pub fn kyber_ciphertext_bytes<const K: usize>() -> (r: usize)
    requires
        K == 2 || K == 3 || K == 4,
    ensures
        r == K * 32 * d_vec_of(K as int) + 32 * d_poly_of(K as int),
{
    if K == 4 {
        1568
    } else {
        K * 320 + 128
    }
}

/// The bytes of a chunked buffer read in order.
pub open spec fn chunk_bytes<const D: usize>(s: Seq<[u8; D]>) -> Seq<u8> {
    Seq::new(s.len() * D as nat, |i: int| s[i / (D as int)]@[i % (D as int)])
}

/// A stack-resident compressed ciphertext: the polynomial part in 32
/// chunks of `DP` bytes, the vector part in `K` rows of 32 chunks of
/// `DV` bytes.
pub struct Ciphertext<const DP: usize, const DV: usize, const K: usize> {
    v: [[u8; DP]; 32],
    b: [[[u8; DV]; 32]; K],
}

impl<const DP: usize, const DV: usize, const K: usize> Ciphertext<DP, DV, K> {
    /// The flattened bytes of the polynomial part.
    pub closed spec fn poly_part(&self) -> Seq<u8> {
        chunk_bytes(self.v@)
    }

    /// The flattened bytes of row `k` of the vector part.
    pub closed spec fn vec_part(&self, k: int) -> Seq<u8> {
        chunk_bytes(self.b@[k]@)
    }

    /// The all-zero ciphertext buffer.
    pub fn new() -> (r: Ciphertext<DP, DV, K>)
        requires
            1 <= DP <= 11,
            1 <= DV <= 11,
        ensures
            r.poly_part().len() == 32 * DP,
            forall|k: int| 0 <= k < K ==> (#[trigger] r.vec_part(k)).len() == 32 * DV,
    {
        Ciphertext { v: [[0u8; DP]; 32], b: [[[0u8; DV]; 32]; K] }
    }

    /// The polynomial part as one flat byte vector.
    pub fn poly_bytes(&self) -> (r: Vec<u8>)
        requires
            1 <= DP <= 11,
        ensures
            r@ == self.poly_part(),
    {
        let n: usize = 32 * DP;
        let mut out = byte_vec(n);
        for i in 0..n
            invariant
                1 <= DP,
                n == 32 * DP,
                out@.len() == n,
                forall|j: int| 0 <= j < i ==> out@[j] == self.poly_part()[j],
        {
            proof {
                assert(0 <= (i as int) / (DP as int) < 32 && 0 <= (i as int) % (DP as int) < DP)
                    by (nonlinear_arith)
                    requires
                        0 <= i < 32 * DP,
                        1 <= DP,
                ;
            }
            out[i] = self.v[i / DP][i % DP];
        }
        proof {
            assert(out@ =~= self.poly_part());
        }
        out
    }

    /// Row `k` of the vector part as a flat byte vector.
    pub fn row_bytes(&self, k: usize) -> (r: Vec<u8>)
        requires
            k < K,
            1 <= DV <= 11,
        ensures
            r@ == self.vec_part(k as int),
            r@.len() == 32 * DV,
    {
        let n: usize = 32 * DV;
        let mut out = byte_vec(n);
        for i in 0..n
            invariant
                k < K,
                1 <= DV,
                n == 32 * DV,
                out@.len() == n,
                forall|j: int| 0 <= j < i ==> out@[j] == self.vec_part(k as int)[j],
        {
            proof {
                assert(0 <= (i as int) / (DV as int) < 32 && 0 <= (i as int) % (DV as int) < DV)
                    by (nonlinear_arith)
                    requires
                        0 <= i < 32 * DV,
                        1 <= DV,
                ;
            }
            out[i] = self.b[k][i / DV][i % DV];
        }
        proof {
            assert(out@ =~= self.vec_part(k as int));
        }
        out
    }

    /// The whole vector part as one flat byte vector, row after row.
    pub fn polyvec_bytes(&self) -> (r: Vec<u8>)
        requires
            1 <= DV <= 11,
            K <= 4,
        ensures
            r@.len() == K * (32 * DV),
            forall|k: int|
                0 <= k < K ==> r@.subrange(k * (32 * DV), (k + 1) * (32 * DV)) == self.vec_part(k),
    {
        let rl: usize = 32 * DV;
        proof {
            assert(K * rl <= 1408) by (nonlinear_arith)
                requires
                    rl <= 352,
                    K <= 4,
            ;
        }
        let mut out = byte_vec(K * rl);
        let mut k: usize = 0;
        let mut off: usize = 0;
        while k < K
            invariant
                1 <= DV <= 11,
                K <= 4,
                rl == 32 * DV,
                out@.len() == K * rl,
                k <= K,
                off == k * rl,
                forall|kk: int|
                    0 <= kk < k ==> out@.subrange(kk * (rl as int), (kk + 1) * (rl as int))
                        == self.vec_part(kk),
            decreases K - k,
        {
            proof {
                assert((k + 1) * rl <= K * rl && k * rl + rl == (k + 1) * rl && K * rl <= 1408)
                    by (nonlinear_arith)
                    requires
                        k < K,
                        K <= 4,
                        1 <= rl <= 352,
                ;
            }
            let row = self.row_bytes(k);
            let ghost prev = out@;
            copy_into_vec(&mut out, off, row.as_slice());
            proof {
                assert(out@.subrange(k as int * (rl as int), (k as int + 1) * (rl as int))
                    =~= self.vec_part(k as int));
                assert forall|kk: int| 0 <= kk < k implies out@.subrange(
                    kk * (rl as int),
                    (kk + 1) * (rl as int),
                ) == self.vec_part(kk) by {
                    assert((kk + 1) * (rl as int) <= k * rl && 0 <= kk * (rl as int) && (kk + 1)
                        * (rl as int) == kk * (rl as int) + rl) by (nonlinear_arith)
                        requires
                            0 <= kk < k,
                            rl >= 1,
                    ;
                    assert forall|x: int| 0 <= x < rl implies #[trigger] out@[kk * (rl as int)
                        + x] == prev[kk * (rl as int) + x] by {
                        assert(kk * (rl as int) + x < off);
                    }
                    assert(out@.subrange(kk * (rl as int), (kk + 1) * (rl as int)) =~= prev.subrange(
                        kk * (rl as int),
                        (kk + 1) * (rl as int),
                    ));
                    assert(prev.subrange(kk * (rl as int), (kk + 1) * (rl as int)) == self.vec_part(
                        kk,
                    ));
                }
            }
            off = off + rl;
            k = k + 1;
        }
        out
    }

    /// Compress `p` to `DP` bits per coefficient into the polynomial part.
    pub fn compress_poly(&mut self, p: &KyberPoly)
        requires
            1 <= DP <= 11,
            p.bounded(3328),
        ensures
            final(self).poly_part() == pack_spec(
                compressed_seq(p.coeffs(), DP as int),
                DP as int,
                32 * DP,
            ),
            forall|k: int| 0 <= k < K ==> #[trigger] final(self).vec_part(k) == old(self).vec_part(k),
    {
        let n: usize = 32 * DP;
        let mut flat = byte_vec(n);
        p.compress_slice::<DP>(flat.as_mut_slice());
        let mut v: [[u8; DP]; 32] = [[0u8; DP]; 32];
        for i in 0..n
            invariant
                1 <= DP <= 11,
                n == 32 * DP,
                flat@.len() == n,
                v@.len() == 32,
                forall|j: int|
                    0 <= j < i ==> (#[trigger] v@[j / (DP as int)]@[j % (DP as int)]) == flat@[j],
        {
            proof {
                assert(0 <= (i as int) / (DP as int) < 32 && 0 <= (i as int) % (DP as int) < DP)
                    by (nonlinear_arith)
                    requires
                        0 <= i < 32 * DP,
                        1 <= DP,
                ;
            }
            let c = i / DP;
            let t = i % DP;
            let mut chunk = v[c];
            chunk[t] = flat[i];
            v[c] = chunk;
            proof {
                assert forall|j: int| 0 <= j < i + 1 implies (#[trigger] v@[j / (DP as int)]@[j % (
                DP as int)]) == flat@[j] by {
                    assert((j / (DP as int) == (i as int) / (DP as int) && j % (DP as int) == (
                    i as int) % (DP as int)) ==> j == i) by (nonlinear_arith)
                        requires
                            0 <= j < 32 * DP,
                            0 <= i < 32 * DP,
                            1 <= DP,
                    ;
                    assert(0 <= j / (DP as int) < 32 && 0 <= j % (DP as int) < DP)
                        by (nonlinear_arith)
                        requires
                            0 <= j < 32 * DP,
                            1 <= DP,
                    ;
                }
            }
        }
        self.v = v;
        proof {
            assert(self.poly_part() =~= flat@);
        }
    }

    /// Decompress the polynomial part into `p`.
    pub fn decompress_poly(&self, p: &mut KyberPoly)
        requires
            1 <= DP <= 11,
        ensures
            forall|i: int|
                0 <= i < 256 ==> #[trigger] final(p).coeffs()[i] as int == decompress_spec(
                    unpacked_field(self.poly_part(), DP as int, i) as int,
                    DP as int,
                ),
            forall|i: int| 0 <= i < 256 ==> 0 <= #[trigger] final(p).coeffs()[i] <= 3328,
    {
        let flat = self.poly_bytes();
        p.decompress_slice::<DP>(flat.as_slice());
    }

    /// Compress each polynomial of `b` to `DV` bits per coefficient into
    /// the rows of the vector part.
    pub fn compress_polyvec(&mut self, b: &KyberPolyVec<K>)
        requires
            1 <= DV <= 11,
            b.bounded(3328),
            b.polys().len() == K,
        ensures
            forall|k: int|
                0 <= k < K ==> #[trigger] final(self).vec_part(k) == pack_spec(
                    compressed_seq(b.polys()[k].coeffs(), DV as int),
                    DV as int,
                    32 * DV,
                ),
            final(self).poly_part() == old(self).poly_part(),
    {
        let n: usize = 32 * DV;
        for k in 0..K
            invariant
                1 <= DV <= 11,
                n == 32 * DV,
                b.bounded(3328),
                b.polys().len() == K,
                self.b@.len() == K,
                self.poly_part() == old(self).poly_part(),
                forall|kk: int|
                    0 <= kk < k ==> #[trigger] self.vec_part(kk) == pack_spec(
                        compressed_seq(b.polys()[kk].coeffs(), DV as int),
                        DV as int,
                        32 * DV,
                    ),
        {
            let p = b.poly_at(k);
            let mut flat = byte_vec(n);
            p.compress_slice::<DV>(flat.as_mut_slice());
            let mut row: [[u8; DV]; 32] = [[0u8; DV]; 32];
            for i in 0..n
                invariant
                    1 <= DV <= 11,
                    n == 32 * DV,
                    flat@.len() == n,
                    row@.len() == 32,
                    forall|j: int|
                        0 <= j < i ==> (#[trigger] row@[j / (DV as int)]@[j % (DV as int)])
                            == flat@[j],
            {
                proof {
                    assert(0 <= (i as int) / (DV as int) < 32 && 0 <= (i as int) % (DV as int) < DV)
                        by (nonlinear_arith)
                        requires
                            0 <= i < 32 * DV,
                            1 <= DV,
                    ;
                }
                let c = i / DV;
                let t = i % DV;
                let mut chunk = row[c];
                chunk[t] = flat[i];
                row[c] = chunk;
                proof {
                    assert forall|j: int| 0 <= j < i + 1 implies (#[trigger] row@[j / (
                    DV as int)]@[j % (DV as int)]) == flat@[j] by {
                        assert((j / (DV as int) == (i as int) / (DV as int) && j % (DV as int)
                            == (i as int) % (DV as int)) ==> j == i) by (nonlinear_arith)
                            requires
                                0 <= j < 32 * DV,
                                0 <= i < 32 * DV,
                                1 <= DV,
                        ;
                        assert(0 <= j / (DV as int) < 32 && 0 <= j % (DV as int) < DV)
                            by (nonlinear_arith)
                            requires
                                0 <= j < 32 * DV,
                                1 <= DV,
                        ;
                    }
                }
            }
            let ghost prev = *self;
            self.b[k] = row;
            proof {
                assert(self.vec_part(k as int) =~= flat@);
                assert(self.poly_part() =~= prev.poly_part());
                assert forall|kk: int| 0 <= kk < k implies #[trigger] self.vec_part(kk)
                    == prev.vec_part(kk) by {
                    assert(self.vec_part(kk) =~= prev.vec_part(kk));
                }
            }
        }
    }

    /// Decompress every row of the vector part into `b`.
    pub fn decompress_polyvec(&self, b: &mut KyberPolyVec<K>)
        requires
            1 <= DV <= 11,
            old(b).polys().len() == K,
        ensures
            forall|k: int, i: int|
                0 <= k < K && 0 <= i < 256 ==> (#[trigger] final(b).polys()[k].coeffs()[i]) as int
                    == decompress_spec(
                    unpacked_field(self.vec_part(k), DV as int, i) as int,
                    DV as int,
                ),
            forall|k: int, i: int|
                0 <= k < K && 0 <= i < 256 ==> 0 <= (#[trigger] final(b).polys()[k].coeffs()[i])
                    <= 3328,
            final(b).polys().len() == K,
            final(b).bounded(3329),
    {
        for k in 0..K
            invariant
                1 <= DV <= 11,
                b.polys().len() == K,
                forall|kk: int, i: int|
                    0 <= kk < k && 0 <= i < 256 ==> (#[trigger] b.polys()[kk].coeffs()[i]) as int
                        == decompress_spec(
                        unpacked_field(self.vec_part(kk), DV as int, i) as int,
                        DV as int,
                    ),
                forall|kk: int, i: int|
                    0 <= kk < k && 0 <= i < 256 ==> 0 <= (#[trigger] b.polys()[kk].coeffs()[i])
                        <= 3328,
        {
            let flat = self.row_bytes(k);
            let mut p = b.poly_at(k);
            p.decompress_slice::<DV>(flat.as_slice());
            b.set_poly(k, p);
        }
        proof {
            assert forall|k: int| 0 <= k < K implies (#[trigger] final(b).polys()[k]).bounded(3329)
                by {
                assert(forall|i: int|
                    0 <= i < 256 ==> 0 <= (#[trigger] final(b).polys()[k].coeffs()[i]) <= 3328);
            }
        }
    }
}

/// A heap-resident compressed ciphertext: the same byte layout held in
/// one contiguous vector, vector part first.
pub struct VecCipherText<const K: usize> {
    data: Vec<u8>,
}

impl<const K: usize> VecCipherText<K> {
    /// The ciphertext bytes.
    pub closed spec fn bytes(&self) -> Seq<u8> {
        self.data@
    }

    /// The buffer holds exactly the ciphertext length for `K`.
    pub open spec fn wf(&self) -> bool {
        self.bytes().len() == K * 32 * d_vec_of(K as int) + 32 * d_poly_of(K as int)
    }

    /// The flattened bytes of row `k` of the vector part.
    pub open spec fn vec_part(&self, k: int) -> Seq<u8> {
        self.bytes().subrange(k * 32 * d_vec_of(K as int), (k + 1) * 32 * d_vec_of(K as int))
    }

    /// The flattened bytes of the polynomial part.
    pub open spec fn poly_part(&self) -> Seq<u8> {
        self.bytes().subrange(
            K as int * 32 * d_vec_of(K as int),
            K as int * 32 * d_vec_of(K as int) + 32 * d_poly_of(K as int),
        )
    }

    /// The all-zero ciphertext buffer.
    pub fn new() -> (r: VecCipherText<K>)
        requires
            K == 2 || K == 3 || K == 4,
        ensures
            r.wf(),
    {
        let n = kyber_ciphertext_bytes::<K>();
        VecCipherText { data: byte_vec(n) }
    }

    /// A ciphertext view over caller-supplied bytes.
    pub fn from_vec(data: Vec<u8>) -> (r: VecCipherText<K>)
        requires
            data@.len() == K * 32 * d_vec_of(K as int) + 32 * d_poly_of(K as int),
        ensures
            r.wf(),
            r.bytes() == data@,
    {
        VecCipherText { data }
    }

    /// A copy of the ciphertext bytes.
    pub fn to_vec(&self) -> (r: Vec<u8>)
        ensures
            r@ == self.bytes(),
    {
        sub_bytes(self.data.as_slice(), 0, self.data.len())
    }

    /// Compress `v` into the polynomial part at `d_poly` bits.
    pub fn compress_poly(&mut self, v: &KyberPoly)
        requires
            K == 2 || K == 3 || K == 4,
            old(self).wf(),
            v.bounded(3328),
        ensures
            final(self).wf(),
            final(self).poly_part() == pack_spec(
                compressed_seq(v.coeffs(), d_poly_of(K as int)),
                d_poly_of(K as int),
                32 * d_poly_of(K as int),
            ),
            forall|k: int| 0 <= k < K ==> #[trigger] final(self).vec_part(k) == old(self).vec_part(k),
    {
        let off = polyvec_compressed_bytes_for_k::<K>();
        let n = poly_compressed_bytes_for_k::<K>();
        let mut flat = byte_vec(n);
        if K == 4 {
            v.compress_slice::<5>(flat.as_mut_slice());
        } else {
            v.compress_slice::<4>(flat.as_mut_slice());
        }
        copy_into_vec(&mut self.data, off, flat.as_slice());
        proof {
            assert(self.poly_part() =~= flat@);
            assert forall|k: int| 0 <= k < K implies #[trigger] self.vec_part(k) == old(
                self,
            ).vec_part(k) by {
                assert((k + 1) * 32 * d_vec_of(K as int) <= K * 32 * d_vec_of(K as int) && 0 <= k
                    * 32 * d_vec_of(K as int)) by (nonlinear_arith)
                    requires
                        0 <= k < K,
                ;
                assert(self.vec_part(k) =~= old(self).vec_part(k));
            }
        }
    }

    /// Decompress the polynomial part into `v`.
    pub fn decompress_poly(&self, v: &mut KyberPoly)
        requires
            K == 2 || K == 3 || K == 4,
            self.wf(),
        ensures
            forall|i: int|
                0 <= i < 256 ==> #[trigger] final(v).coeffs()[i] as int == decompress_spec(
                    unpacked_field(self.poly_part(), d_poly_of(K as int), i) as int,
                    d_poly_of(K as int),
                ),
            forall|i: int| 0 <= i < 256 ==> 0 <= #[trigger] final(v).coeffs()[i] <= 3328,
    {
        let off = polyvec_compressed_bytes_for_k::<K>();
        let n = poly_compressed_bytes_for_k::<K>();
        let flat = sub_bytes(self.data.as_slice(), off, n);
        proof {
            assert(flat@ =~= self.poly_part());
        }
        if K == 4 {
            v.decompress_slice::<5>(flat.as_slice());
        } else {
            v.decompress_slice::<4>(flat.as_slice());
        }
    }

    /// Compress each polynomial of `b` into the rows of the vector part.
    #[verifier::rlimit(50)]
    pub fn compress_polyvec(&mut self, b: &KyberPolyVec<K>)
        requires
            K == 2 || K == 3 || K == 4,
            old(self).wf(),
            b.bounded(3328),
            b.polys().len() == K,
        ensures
            final(self).wf(),
            forall|k: int|
                0 <= k < K ==> #[trigger] final(self).vec_part(k) == pack_spec(
                    compressed_seq(b.polys()[k].coeffs(), d_vec_of(K as int)),
                    d_vec_of(K as int),
                    32 * d_vec_of(K as int),
                ),
            final(self).poly_part() == old(self).poly_part(),
    {
        let row_len: usize = if K == 4 {
            352
        } else {
            320
        };
        let mut k: usize = 0;
        let mut off: usize = 0;
        while k < K
            invariant
                K == 2 || K == 3 || K == 4,
                row_len == 32 * d_vec_of(K as int),
                self.wf(),
                b.bounded(3328),
                b.polys().len() == K,
                k <= K,
                off == k * row_len,
                self.poly_part() == old(self).poly_part(),
                forall|kk: int|
                    0 <= kk < k ==> #[trigger] self.vec_part(kk) == pack_spec(
                        compressed_seq(b.polys()[kk].coeffs(), d_vec_of(K as int)),
                        d_vec_of(K as int),
                        32 * d_vec_of(K as int),
                    ),
            decreases K - k,
        {
            let p = b.poly_at(k);
            let mut flat = byte_vec(row_len);
            if K == 4 {
                p.compress_slice::<11>(flat.as_mut_slice());
            } else {
                p.compress_slice::<10>(flat.as_mut_slice());
            }
            proof {
                assert((k + 1) * row_len <= K * row_len && k * row_len + row_len == (k + 1)
                    * row_len) by (nonlinear_arith)
                    requires
                        k < K,
                        row_len > 0,
                ;
            }
            let ghost prev = *self;
            copy_into_vec(&mut self.data, off, flat.as_slice());
            proof {
                assert(k * (row_len as int) == k as int * 32 * d_vec_of(K as int) && (k as int + 1)
                    * 32 * d_vec_of(K as int) == k * (row_len as int) + row_len && K as int * 32
                    * d_vec_of(K as int) == K * (row_len as int)) by (nonlinear_arith)
                    requires
                        row_len == 32 * d_vec_of(K as int),
                ;
                assert(self.poly_part() =~= prev.poly_part());
                assert(self.vec_part(k as int) =~= flat@);
                assert forall|kk: int| 0 <= kk < k implies #[trigger] self.vec_part(kk)
                    == prev.vec_part(kk) by {
                    assert(kk * 32 * d_vec_of(K as int) + 32 * d_vec_of(K as int) <= k * row_len
                        && 0 <= kk * 32 * d_vec_of(K as int)) by (nonlinear_arith)
                        requires
                            0 <= kk < k,
                            row_len == 32 * d_vec_of(K as int),
                            row_len > 0,
                    ;
                    assert(self.vec_part(kk) =~= prev.vec_part(kk));
                }
            }
            off = off + row_len;
            k = k + 1;
        }
    }

    /// Decompress every row of the vector part into `b`.
    pub fn decompress_polyvec(&self, b: &mut KyberPolyVec<K>)
        requires
            K == 2 || K == 3 || K == 4,
            self.wf(),
            old(b).polys().len() == K,
        ensures
            forall|k: int, i: int|
                0 <= k < K && 0 <= i < 256 ==> (#[trigger] final(b).polys()[k].coeffs()[i]) as int
                    == decompress_spec(
                    unpacked_field(self.vec_part(k), d_vec_of(K as int), i) as int,
                    d_vec_of(K as int),
                ),
            final(b).polys().len() == K,
            final(b).bounded(3329),
    {
        let row_len: usize = if K == 4 {
            352
        } else {
            320
        };
        let mut k: usize = 0;
        let mut off: usize = 0;
        while k < K
            invariant
                K == 2 || K == 3 || K == 4,
                row_len == 32 * d_vec_of(K as int),
                self.wf(),
                b.polys().len() == K,
                k <= K,
                off == k * row_len,
                forall|kk: int, i: int|
                    0 <= kk < k && 0 <= i < 256 ==> (#[trigger] b.polys()[kk].coeffs()[i]) as int
                        == decompress_spec(
                        unpacked_field(self.vec_part(kk), d_vec_of(K as int), i) as int,
                        d_vec_of(K as int),
                    ),
                forall|kk: int, i: int|
                    0 <= kk < k && 0 <= i < 256 ==> 0 <= (#[trigger] b.polys()[kk].coeffs()[i])
                        <= 3328,
            decreases K - k,
        {
            proof {
                assert((k + 1) * row_len <= K * row_len && k * row_len + row_len == (k + 1)
                    * row_len) by (nonlinear_arith)
                    requires
                        k < K,
                        row_len > 0,
                ;
            }
            let flat = sub_bytes(self.data.as_slice(), off, row_len);
            let mut p = b.poly_at(k);
            proof {
                assert(k * (row_len as int) == k as int * 32 * d_vec_of(K as int) && (k as int + 1)
                    * 32 * d_vec_of(K as int) == k * (row_len as int) + row_len && K as int * 32
                    * d_vec_of(K as int) == K * (row_len as int)) by (nonlinear_arith)
                    requires
                        row_len == 32 * d_vec_of(K as int),
                ;
                assert(flat@ =~= self.vec_part(k as int));
            }
            if K == 4 {
                p.decompress_slice::<11>(flat.as_slice());
            } else {
                p.decompress_slice::<10>(flat.as_slice());
            }
            b.set_poly(k, p);
            off = off + row_len;
            k = k + 1;
        }
        proof {
            assert forall|k: int| 0 <= k < K implies (#[trigger] final(b).polys()[k]).bounded(3329)
                by {
                assert(forall|i: int|
                    0 <= i < 256 ==> 0 <= (#[trigger] final(b).polys()[k].coeffs()[i]) <= 3328);
            }
        }
    }
}

} // verus!
