//! The square public matrix of a Kyber instance: `K` rows of `K`
//! polynomials, expanded deterministically from a 32-byte seed by the
//! SHAKE128 XOF with row / column nonces.

use crate::poly_kyber::{coeffs_bounded, uniform_loop_spec};
use crate::polyvec::{vec_bounded, KyberPolyVec};
use vstd::prelude::*;

verus! {

broadcast use vstd::array::group_array_axioms, crate::poly_kyber::kyber_poly_len;

/// Entry `(r, j)` of the expanded matrix: the rejection-sampled
/// polynomial of the SHAKE128 stream for `seed` with nonces `(r, j)`
/// when transposed and `(j, r)` otherwise, over a zero base.
pub open spec fn matrix_entry_spec(seed: Seq<u8>, transposed: bool, r: int, j: int) -> Seq<i16> {
    uniform_loop_spec(
        Seq::new(256, |t: int| 0i16),
        0,
        crate::keccak::absorb_spec(
            seed + if transposed {
                seq![r as u8, j as u8]
            } else {
                seq![j as u8, r as u8]
            },
            21,
            0x1f,
        ),
        0,
    ).0
}

/// The `K x K` matrix `A` (or its transpose) of a Kyber instance.
#[derive(Clone, Copy)]
pub struct KyberMatrix<const K: usize> {
    rows: [KyberPolyVec<K>; K],
}

impl<const K: usize> KyberMatrix<K> {
    pub closed spec fn row_seq(&self) -> Seq<KyberPolyVec<K>> {
        self.rows@
    }

    /// Every polynomial of every row has its coefficients in `[0, q)`.
    pub open spec fn rows_uniform(&self) -> bool {
        forall|r: int, j: int, k: int|
            0 <= r < K && 0 <= j < K && 0 <= k < 256 ==> 0 <= (#[trigger] self.row_seq()[r].polys()[j].coeffs()[k]) <= 3328
    }

    /// Every entry equals its deterministic expansion from `seed`.
    pub open spec fn rows_expanded(&self, seed: Seq<u8>, transposed: bool) -> bool {
        forall|r: int, j: int|
            0 <= r < K && 0 <= j < K ==> (#[trigger] self.row_seq()[r].polys()[j]).coeffs()
                == matrix_entry_spec(seed, transposed, r, j)
    }

    pub fn row(&self, r: usize) -> (out: KyberPolyVec<K>)
        requires
            r < K,
        ensures
            out == self.row_seq()[r as int],
    {
        self.rows[r]
    }

    /// Expand the matrix from `seed`, row by row; `TRANSPOSED` swaps the
    /// two nonces and so yields the transpose.
    pub fn gen_matrix<const TRANSPOSED: bool>(seed: &[u8]) -> (m: KyberMatrix<K>)
        requires
            seed@.len() == 32,
            K <= 4,
        ensures
            m.rows_expanded(seed@, TRANSPOSED),
            m.rows_uniform(),
            m.row_seq().len() == K,
    {
        let zero_row = KyberPolyVec::<K>::new();
        let mut m = KyberMatrix { rows: [zero_row; K] };
        let ghost pre = m.row_seq();
        proof {
            assert forall|r: int, j: int| 0 <= r < K && 0 <= j < K implies (#[trigger] pre[r].polys()[j]).coeffs()
                == Seq::new(256, |t: int| 0i16) by {
                assert(pre[r] == zero_row);
                assert(vec_bounded(zero_row.polys(), 0));
                assert(zero_row.polys().len() == K);
                assert(zero_row.polys()[j].bounded(0));
                assert(coeffs_bounded(zero_row.polys()[j].coeffs(), 0));
                assert forall|k: int| 0 <= k < 256 implies #[trigger] zero_row.polys()[j].coeffs()[k]
                    == 0i16 by {
                    assert(0 <= zero_row.polys()[j].coeffs()[k] <= 0);
                }
                assert(zero_row.polys()[j].coeffs() =~= Seq::new(256, |t: int| 0i16));
            }
        }
        m.gen_matrix_into::<TRANSPOSED>(seed);
        proof {
            assert forall|r: int, j: int| 0 <= r < K && 0 <= j < K implies (#[trigger] m.row_seq()[r].polys()[j]).coeffs()
                == matrix_entry_spec(seed@, TRANSPOSED, r, j) by {
                assert(pre[r].polys()[j].coeffs() == Seq::new(256, |t: int| 0i16));
            }
        }
        m
    }

    /// Expand the matrix `A` from `seed`.
    pub fn gen_a(seed: &[u8]) -> (m: KyberMatrix<K>)
        requires
            seed@.len() == 32,
            K <= 4,
        ensures
            m.rows_expanded(seed@, false),
            m.rows_uniform(),
            m.row_seq().len() == K,
    {
        KyberMatrix::<K>::gen_matrix::<false>(seed)
    }

    /// Expand the transposed matrix `A^T` from `seed`.
    pub fn gen_at(seed: &[u8]) -> (m: KyberMatrix<K>)
        requires
            seed@.len() == 32,
            K <= 4,
        ensures
            m.rows_expanded(seed@, true),
            m.rows_uniform(),
            m.row_seq().len() == K,
    {
        KyberMatrix::<K>::gen_matrix::<true>(seed)
    }

    /// Fill this matrix in place from `seed`: entry `(r, j)` becomes the
    /// rejection-sampled polynomial for nonces `(r, j)` when transposed
    /// and `(j, r)` otherwise, over the entry it replaces.
    pub fn gen_matrix_into<const TRANSPOSED: bool>(&mut self, seed: &[u8])
        requires
            seed@.len() == 32,
            K <= 4,
        ensures
            forall|r: int, j: int|
                0 <= r < K && 0 <= j < K ==> (#[trigger] final(self).row_seq()[r].polys()[j]).coeffs()
                    == crate::poly_kyber::uniform_loop_spec(
                    old(self).row_seq()[r].polys()[j].coeffs(),
                    0,
                    crate::keccak::absorb_spec(
                        seed@ + if TRANSPOSED {
                            seq![r as u8, j as u8]
                        } else {
                            seq![j as u8, r as u8]
                        },
                        21,
                        0x1f,
                    ),
                    0,
                ).0,
            final(self).rows_uniform(),
            final(self).row_seq().len() == K,
    {
        let ghost s0 = self.row_seq();
        for r in 0..K
            invariant
                seed@.len() == 32,
                K <= 4,
                self.row_seq().len() == K,
                s0.len() == K,
                forall|rr: int| r <= rr < K ==> #[trigger] self.row_seq()[rr] == s0[rr],
                forall|rr: int, j: int|
                    0 <= rr < r && 0 <= j < K ==> (#[trigger] self.row_seq()[rr].polys()[j]).coeffs()
                        == crate::poly_kyber::uniform_loop_spec(
                        s0[rr].polys()[j].coeffs(),
                        0,
                        crate::keccak::absorb_spec(
                            seed@ + if TRANSPOSED {
                                seq![rr as u8, j as u8]
                            } else {
                                seq![j as u8, rr as u8]
                            },
                            21,
                            0x1f,
                        ),
                        0,
                    ).0,
                forall|rr: int, j: int, k: int|
                    0 <= rr < r && 0 <= j < K && 0 <= k < 256 ==> 0 <= (
                    #[trigger] self.row_seq()[rr].polys()[j].coeffs()[k]) <= 3328,
        {
            let mut v = self.rows[r];
            v.uniform_xof::<TRANSPOSED>(seed, r as u8);
            self.rows[r] = v;
        }
    }
}

} // verus!
