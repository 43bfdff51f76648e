//! Dilithium polynomials: 256 coefficients modulo q = 8380417 with the
//! complete eight-layer NTT, its inverse, scalar pointwise multiplication
//! and uniform rejection sampling.

use crate::fips202::Shake128;
use crate::fq_dilithium::{dilithium_fqmul, dmont_red, dq, freeze};
use crate::modular::cong;
use vstd::prelude::*;

verus! {

/// Number of coefficients.
pub const DILITHIUM_N: usize = 256;

/// Montgomery form of the 512-th root of unity 1753 used to build the
/// twiddle table: (MONT * 1753) mod q.
pub const DILITHIUM_ROOT_MONT: i32 = -6288750;

/// Scale factor applied by the inverse NTT: 256^-1 * 2^64 mod q.
pub const DILITHIUM_INV_NTT_SCALE: i32 = 41978;

/// Every coefficient of `s` lies in `[-b, b]`.
pub open spec fn dcoeffs_bounded(s: Seq<i32>, b: int) -> bool {
    forall|i: int| 0 <= i < s.len() ==> -b <= #[trigger] s[i] <= b
}

/// One rejection step: append `v` when it is below q and the polynomial
/// still has room.
pub open spec fn drej_step(c: Seq<i32>, ctr: int, v: int) -> (Seq<i32>, int) {
    if ctr < 256 && v < 8380417 {
        (c.update(ctr, v as i32), ctr + 1)
    } else {
        (c, ctr)
    }
}

/// The 23-bit candidate of the 3-byte group at `pos`.
pub open spec fn drej_cand(b: Seq<u8>, pos: int) -> u32 {
    (b[pos] as u32) | ((b[pos + 1] as u32) << 8u32) | (((b[pos + 2] as u32) << 16u32) & 0x7F0000)
}

/// The polynomial and counter after rejection sampling the first `n`
/// 3-byte groups of one XOF block, in order.
pub open spec fn drej_block_spec(c: Seq<i32>, ctr: int, bytes: Seq<u8>, n: int) -> (Seq<i32>, int)
    decreases n,
{
    if n <= 0 {
        (c, ctr)
    } else {
        let prev = drej_block_spec(c, ctr, bytes, n - 1);
        drej_step(prev.0, prev.1, drej_cand(bytes, 3 * (n - 1)) as int)
    }
}

/// Coefficients `ctr..` zeroed; the defensive fill at the block cap.
pub open spec fn dzero_fill_from(c: Seq<i32>, ctr: int) -> Seq<i32> {
    Seq::new(
        256,
        |k: int|
            if ctr <= k {
                0i32
            } else {
                c[k]
            },
    )
}

/// The polynomial and sponge state after the uniform sampling loop.
pub open spec fn duniform_loop_spec(c: Seq<i32>, ctr: int, s: Seq<u64>, rounds: int) -> (
    Seq<i32>,
    Seq<u64>,
)
    decreases 512 - rounds,
{
    if ctr >= 256 || rounds >= 512 {
        (dzero_fill_from(c, ctr), s)
    } else {
        let block = crate::keccak::squeeze_out(s, 168, 21);
        let s2 = crate::keccak::squeeze_state(s, 168, 21);
        let st = drej_block_spec(c, ctr, block, 56);
        duniform_loop_spec(st.0, st.1, s2, rounds + 1)
    }
}

/// A Dilithium polynomial; the NTT domain is tracked by the caller.
#[derive(Clone, Copy)]
pub struct DilithiumPoly {
    c: [i32; 256],
}

/// A Dilithium polynomial always holds exactly 256 coefficients.
pub broadcast proof fn dilithium_poly_len(p: DilithiumPoly)
    ensures
        (#[trigger] p.coeffs()).len() == 256,
{
}

impl DilithiumPoly {
    pub closed spec fn coeffs(&self) -> Seq<i32> {
        self.c@
    }

    pub open spec fn bounded(&self, b: int) -> bool {
        dcoeffs_bounded(self.coeffs(), b)
    }

    /// The all-zero polynomial.
    pub fn new() -> (r: DilithiumPoly)
        ensures
            r.bounded(0),
            r.coeffs().len() == 256,
    {
        DilithiumPoly { c: [0i32; 256] }
    }

    pub fn from_array(a: [i32; 256]) -> (r: DilithiumPoly)
        ensures
            r.coeffs() == a@,
    {
        DilithiumPoly { c: a }
    }

    pub fn into_array(&self) -> (r: [i32; 256])
        ensures
            r@ == self.coeffs(),
    {
        self.c
    }

    pub fn coeff(&self, i: usize) -> (r: i32)
        requires
            i < 256,
        ensures
            r == self.coeffs()[i as int],
    {
        self.c[i]
    }

    /// Map every coefficient to its canonical representative.
    pub fn reduce(&mut self)
        requires
            forall|i: int| 0 <= i < 256 ==> #[trigger] old(self).coeffs()[i] <= 2143289343,
        ensures
            forall|i: int|
                0 <= i < 256 ==> #[trigger] final(self).coeffs()[i] as int == (old(
                    self,
                ).coeffs()[i] as int) % dq(),
            forall|i: int| 0 <= i < 256 ==> 0 <= #[trigger] final(self).coeffs()[i] < 8380417,
    {
        let ghost s0 = self.c@;
        for i in 0..256
            invariant
                self.c@.len() == 256,
                s0.len() == 256,
                s0 == old(self).coeffs(),
                forall|k: int| i <= k < 256 ==> self.c@[k] == s0[k],
                forall|k: int| 0 <= k < 256 ==> #[trigger] old(self).coeffs()[k] <= 2143289343,
                forall|k: int| 0 <= k < i ==> #[trigger] self.c@[k] as int == (s0[k] as int) % dq(),
                forall|k: int| 0 <= k < i ==> 0 <= #[trigger] self.c@[k] < 8380417,
        {
            proof {
                assert(old(self).coeffs()[i as int] <= 2143289343);
            }
            self.c[i] = freeze(self.c[i]);
        }
    }

    /// Forward NTT: eight butterfly layers, each growing every
    /// coefficient by at most q.
    pub fn ntt(&mut self)
        requires
            old(self).bounded(8380417),
        ensures
            final(self).coeffs() == dilithium_ntt_spec(old(self).coeffs()),
            final(self).bounded(75423753),
    {
        proof {
            reveal(dilithium_ntt_spec);
        }
        let z = dilithium_zetas();
        dilithium_ntt_layer(&mut self.c, &z, 128, 0, Ghost(8380417int));
        dilithium_ntt_layer(&mut self.c, &z, 64, 1, Ghost(16760834int));
        dilithium_ntt_layer(&mut self.c, &z, 32, 3, Ghost(25141251int));
        dilithium_ntt_layer(&mut self.c, &z, 16, 7, Ghost(33521668int));
        dilithium_ntt_layer(&mut self.c, &z, 8, 15, Ghost(41902085int));
        dilithium_ntt_layer(&mut self.c, &z, 4, 31, Ghost(50282502int));
        dilithium_ntt_layer(&mut self.c, &z, 2, 63, Ghost(58662919int));
        dilithium_ntt_layer(&mut self.c, &z, 1, 127, Ghost(67043336int));
    }

    /// Inverse NTT: eight Gentleman-Sande layers, whose sums at most
    /// double the coefficient bound per layer, then the Montgomery
    /// scale by 256^-1.
    pub fn inv_ntt(&mut self)
        requires
            old(self).bounded(8380416),
        ensures
            final(self).coeffs() == dilithium_inv_ntt_spec(old(self).coeffs()),
            final(self).bounded(8380416),
    {
        proof {
            reveal(dilithium_inv_ntt_spec);
        }
        let z = dilithium_zetas();
        dilithium_inv_layer(&mut self.c, &z, 1, 255, Ghost(8380416int));
        dilithium_inv_layer(&mut self.c, &z, 2, 127, Ghost(16760832int));
        dilithium_inv_layer(&mut self.c, &z, 4, 63, Ghost(33521664int));
        dilithium_inv_layer(&mut self.c, &z, 8, 31, Ghost(67043328int));
        dilithium_inv_layer(&mut self.c, &z, 16, 15, Ghost(134086656int));
        dilithium_inv_layer(&mut self.c, &z, 32, 7, Ghost(268173312int));
        dilithium_inv_layer(&mut self.c, &z, 64, 3, Ghost(536346624int));
        dilithium_inv_layer(&mut self.c, &z, 128, 1, Ghost(1072693248int));
        let ghost s0 = self.c@;
        for i in 0..256
            invariant
                self.c@.len() == 256,
                s0.len() == 256,
                dcoeffs_bounded(s0, 2145386496int),
                forall|k: int| i <= k < 256 ==> self.c@[k] == s0[k],
                forall|k: int| 0 <= k < i ==> -8380416 <= #[trigger] self.c@[k] <= 8380416,
                forall|k: int|
                    0 <= k < i ==> #[trigger] self.c@[k] as int == dmont_red(s0[k] * 41978),
        {
            proof {
                assert(-2145386496 * 41978 <= (s0[i as int] as int) * 41978 <= 2145386496 * 41978
                    && 2145386496 * 41978 < 2147483648 * 8380417) by (nonlinear_arith)
                    requires
                        -2145386496 <= s0[i as int] <= 2145386496,
                ;
            }
            self.c[i] = dilithium_fqmul(self.c[i], DILITHIUM_INV_NTT_SCALE);
        }
        proof {
            assert(self.c@ =~= dilithium_inv_ntt_spec(old(self).coeffs()));
        }
    }

    /// Scalar pointwise Montgomery multiplication in the NTT domain:
    /// `2^32 * r[i] == a[i] * b[i] (mod q)` for every coefficient.
    pub fn pointwise(&self, other: &DilithiumPoly, result: &mut DilithiumPoly)
        requires
            self.bounded(75423753),
            other.bounded(75423753),
        ensures
            forall|i: int|
                0 <= i < 256 ==> #[trigger] final(result).coeffs()[i] as int == dmont_red(
                    self.coeffs()[i] * other.coeffs()[i],
                ),
            forall|i: int|
                0 <= i < 256 ==> cong(
                    dq(),
                    4294967296 * (#[trigger] final(result).coeffs()[i]),
                    self.coeffs()[i] * other.coeffs()[i],
                ),
            final(result).bounded(8380416),
    {
        let mut out = DilithiumPoly::new();
        for i in 0..256
            invariant
                self.bounded(75423753),
                other.bounded(75423753),
                self.coeffs().len() == 256,
                other.coeffs().len() == 256,
                out.coeffs().len() == 256,
                forall|k: int|
                    0 <= k < i ==> #[trigger] out.coeffs()[k] as int == dmont_red(
                        self.coeffs()[k] * other.coeffs()[k],
                    ),
                forall|k: int|
                    0 <= k < i ==> cong(
                        dq(),
                        4294967296 * (#[trigger] out.coeffs()[k]),
                        self.coeffs()[k] * other.coeffs()[k],
                    ),
                forall|k: int| 0 <= k < i ==> -8380416 <= #[trigger] out.coeffs()[k] <= 8380416,
        {
            proof {
                assert(-75423753 * 75423753 <= (self.coeffs()[i as int] as int)
                    * (other.coeffs()[i as int] as int) <= 75423753 * 75423753
                    && 75423753 * 75423753 < 2147483648 * 8380417) by (nonlinear_arith)
                    requires
                        -75423753 <= self.coeffs()[i as int] <= 75423753,
                        -75423753 <= other.coeffs()[i as int] <= 75423753,
                ;
            }
            out.c[i] = dilithium_fqmul(self.coeff(i), other.coeff(i));
        }
        *result = out;
    }

    /// Fill coefficients starting at `ctr` by rejection sampling one
    /// 23-bit candidate from every three bytes of XOF output: exactly
    /// the in-order acceptance `drej_block_spec`.
    pub fn rej_uniform(&mut self, ctr: usize, bytes: &[u8]) -> (r: usize)
        requires
            ctr <= 256,
            bytes@.len() == 168,
        ensures
            final(self).coeffs() == drej_block_spec(old(self).coeffs(), ctr as int, bytes@, 56).0,
            r as int == drej_block_spec(old(self).coeffs(), ctr as int, bytes@, 56).1,
            ctr <= r <= 256,
            forall|k: int| ctr <= k < r ==> 0 <= #[trigger] final(self).coeffs()[k] < 8380417,
            forall|k: int|
                (0 <= k < ctr || r <= k < 256) ==> #[trigger] final(self).coeffs()[k] == old(
                    self,
                ).coeffs()[k],
    {
        let ghost s0 = self.coeffs();
        let mut cur = ctr;
        for chunk in 0..56
            invariant
                bytes@.len() == 168,
                self.coeffs().len() == 256,
                s0.len() == 256,
                ctr <= cur <= 256,
                (self.coeffs(), cur as int) == drej_block_spec(
                    s0,
                    ctr as int,
                    bytes@,
                    chunk as int,
                ),
                forall|k: int| ctr <= k < cur ==> 0 <= #[trigger] self.coeffs()[k] < 8380417,
                forall|k: int|
                    (0 <= k < ctr || cur <= k < 256) ==> #[trigger] self.coeffs()[k] == s0[k],
        {
            let pos = 3 * chunk;
            let t: u32 = (bytes[pos] as u32) | ((bytes[pos + 1] as u32) << 8u32) | (((bytes[pos
                + 2] as u32) << 16u32) & 0x7F0000);
            proof {
                let b0 = bytes@[pos as int];
                let b1 = bytes@[pos as int + 1];
                let b2 = bytes@[pos as int + 2];
                assert(((b0 as u32) | ((b1 as u32) << 8u32) | (((b2 as u32) << 16u32) & 0x7F0000))
                    < 8388608) by (bit_vector);
            }
            if cur < 256 && t < 8380417 {
                self.c[cur] = t as i32;
                cur = cur + 1;
            }
        }
        cur
    }

    /// Expand the polynomial from the SHAKE128 stream for `seed` and
    /// the two nonces, by rejection sampling 23-bit candidates: exactly
    /// the in-order accepted candidates of the stream, with the
    /// defensive zero fill at the block cap.
    pub fn uniform(&mut self, seed: &[u8], i: u8, j: u8)
        requires
            seed@.len() == 32,
        ensures
            final(self).coeffs() == duniform_loop_spec(
                old(self).coeffs(),
                0,
                crate::keccak::absorb_spec(seed@ + seq![i, j], 21, 0x1f),
                0,
            ).0,
            forall|k: int| 0 <= k < 256 ==> 0 <= #[trigger] final(self).coeffs()[k] < 8380417,
    {
        let mut xof = Shake128::new();
        xof.absorb_xof_with_nonces(seed, i, j);
        let ghost goal = duniform_loop_spec(old(self).coeffs(), 0, xof.state(), 0);
        let mut ctr: usize = 0;
        let mut rounds: usize = 0;
        while ctr < 256 && rounds < 512
            invariant
                ctr <= 256,
                rounds <= 512,
                self.coeffs().len() == 256,
                xof.wf(),
                xof.is_dirty(),
                duniform_loop_spec(self.coeffs(), ctr as int, xof.state(), rounds as int) == goal,
                forall|k: int| 0 <= k < ctr ==> 0 <= #[trigger] self.coeffs()[k] < 8380417,
            decreases 512 - rounds,
        {
            let block = xof.squeezed_block();
            ctr = self.rej_uniform(ctr, block.as_slice());
            rounds = rounds + 1;
        }
        let ghost pre_fill = self.coeffs();
        if ctr < 256 {
            for k in ctr..256
                invariant
                    ctr <= k,
                    self.coeffs().len() == 256,
                    pre_fill.len() == 256,
                    forall|t: int| 0 <= t < ctr ==> #[trigger] self.coeffs()[t] == pre_fill[t],
                    forall|t: int| ctr <= t < k ==> #[trigger] self.coeffs()[t] == 0i32,
                    forall|t: int| k <= t < 256 ==> #[trigger] self.coeffs()[t] == pre_fill[t],
                    forall|t: int| 0 <= t < k ==> 0 <= #[trigger] self.coeffs()[t] < 8380417,
            {
                self.c[k] = 0;
            }
        }
        proof {
            assert(self.coeffs() =~= dzero_fill_from(pre_fill, ctr as int));
        }
    }
}

/// The 8-bit reversal of `k`.
pub open spec fn rev8(k: u16) -> u16 {
    ((k & 1) << 7) | ((k & 2) << 5) | ((k & 4) << 3) | ((k & 8) << 1) | ((k & 16) >> 1) | ((k & 32)
        >> 3) | ((k & 64) >> 5) | ((k & 128) >> 7)
}

/// The Montgomery root of unity raised to the `e`-th power: the chain
/// of Montgomery products the twiddle generator walks.
pub open spec fn domega(e: nat) -> i32
    decreases e,
{
    if e == 0 {
        -4186625i32
    } else {
        dmont_red((domega((e - 1) as nat) as int) * -6288750) as i32
    }
}

/// Twiddle factor `j` of the table: the root raised to the bit-reversed
/// exponent, in Montgomery form.
pub open spec fn dilithium_zeta(j: int) -> i32 {
    domega(rev8((j + 1) as u16) as nat)
}

proof fn lemma_rev8_involution(k: u16)
    by (bit_vector)
    ensures
        k < 256 ==> rev8(rev8(k)) == k,
        k < 256 ==> rev8(k) < 256,
        1 <= k < 256 ==> 1 <= rev8(k),
{
}

/// The 255 twiddle factors in Montgomery form, generated from the
/// Montgomery root of unity at bit-reversed positions exactly as the
/// reference table is.
pub fn dilithium_zetas() -> (z: [i32; 255])
    ensures
        dcoeffs_bounded(z@, 8380416),
        forall|j: int| 0 <= j < 255 ==> #[trigger] z@[j] == dilithium_zeta(j),
{
    let mut z = [0i32; 255];
    let mut omega: i32 = crate::fq_dilithium::DILITHIUM_MONT;
    for i in 1..256usize
        invariant
            z@.len() == 255,
            -8380416 <= omega <= 8380416,
            omega == domega((i - 1) as nat),
            dcoeffs_bounded(z@, 8380416),
            forall|t: int|
                1 <= t < i ==> #[trigger] z@[rev8(t as u16) - 1] == domega(t as nat),
    {
        proof {
            assert(-8380416 * 6288750 <= (omega as int) * (-6288750) <= 8380416 * 6288750
                && 8380416 * 6288750 < 2147483648 * 8380417) by (nonlinear_arith)
                requires
                    -8380416 <= omega <= 8380416,
            ;
        }
        omega = dilithium_fqmul(omega, DILITHIUM_ROOT_MONT);
        let br = bit_reverse8(i);
        z[br - 1] = omega;
        proof {
            assert forall|t: int| 1 <= t < i + 1 implies #[trigger] z@[rev8(t as u16) - 1]
                == domega(t as nat) by {
                lemma_rev8_involution(t as u16);
                lemma_rev8_involution(i as u16);
                if t != i {
                    assert(rev8(t as u16) != rev8(i as u16));
                }
            }
        }
    }
    proof {
        assert forall|j: int| 0 <= j < 255 implies #[trigger] z@[j] == dilithium_zeta(j) by {
            lemma_rev8_involution((j + 1) as u16);
            assert(z@[rev8(rev8((j + 1) as u16)) - 1] == domega(rev8((j + 1) as u16) as nat));
        }
    }
    z
}

/// The 8-bit reversal of `i`, used to order the twiddle table.
fn bit_reverse8(i: usize) -> (r: usize)
    requires
        1 <= i < 256,
    ensures
        1 <= r < 256,
        r == rev8(i as u16),
{
    proof {
        assert(1 <= rev8(i as u16) < 256 && ((((i as u16) & 1) << 7) | (((i as u16) & 2) << 5) | ((
        (i as u16) & 4) << 3) | (((i as u16) & 8) << 1) | (((i as u16) & 16) >> 1) | (((i as u16)
            & 32) >> 3) | (((i as u16) & 64) >> 5) | (((i as u16) & 128) >> 7)) == rev8(i as u16))
            by (bit_vector)
            requires
                1 <= i < 256,
        ;
    }
    let k: u16 = i as u16;
    let r: u16 = ((k & 1) << 7) | ((k & 2) << 5) | ((k & 4) << 3) | ((k & 8) << 1) | ((k & 16)
        >> 1) | ((k & 32) >> 3) | ((k & 64) >> 5) | ((k & 128) >> 7);
    r as usize
}

/// One forward butterfly layer, as a pointwise function of the previous
/// state.
pub open spec fn dilithium_ntt_layer_spec(c: Seq<i32>, len: int, k0: int) -> Seq<i32> {
    Seq::new(
        256,
        |i: int|
            {
                let zeta = dilithium_zeta(k0 + i / (2 * len));
                if i % (2 * len) < len {
                    (c[i] + dmont_red(c[i + len] * zeta)) as i32
                } else {
                    (c[i - len] - dmont_red(c[i] * zeta)) as i32
                }
            },
    )
}

/// The eight-layer forward transform.
#[verifier::opaque]
pub open spec fn dilithium_ntt_spec(c: Seq<i32>) -> Seq<i32> {
    dilithium_ntt_layer_spec(
        dilithium_ntt_layer_spec(
            dilithium_ntt_layer_spec(
                dilithium_ntt_layer_spec(
                    dilithium_ntt_layer_spec(
                        dilithium_ntt_layer_spec(
                            dilithium_ntt_layer_spec(dilithium_ntt_layer_spec(c, 128, 0), 64, 1),
                            32,
                            3,
                        ),
                        16,
                        7,
                    ),
                    8,
                    15,
                ),
                4,
                31,
            ),
            2,
            63,
        ),
        1,
        127,
    )
}

/// One inverse butterfly layer: each pair `(j, j+len)` becomes
/// `(c[j]+c[j+len], mont_red((c[j+len]-c[j]) * zeta))`.
pub open spec fn dilithium_inv_layer_spec(c: Seq<i32>, len: int, k_top: int) -> Seq<i32> {
    Seq::new(
        256,
        |i: int|
            {
                let zeta = dilithium_zeta(k_top - 1 - i / (2 * len));
                if i % (2 * len) < len {
                    (c[i] + c[i + len]) as i32
                } else {
                    dmont_red((c[i] - c[i - len]) * zeta) as i32
                }
            },
    )
}

/// The eight inverse layers followed by the Montgomery scale by 256^-1.
#[verifier::opaque]
pub open spec fn dilithium_inv_ntt_spec(c: Seq<i32>) -> Seq<i32> {
    Seq::new(
        256,
        |i: int|
            dmont_red(
                dilithium_inv_layer_spec(
                    dilithium_inv_layer_spec(
                        dilithium_inv_layer_spec(
                            dilithium_inv_layer_spec(
                                dilithium_inv_layer_spec(
                                    dilithium_inv_layer_spec(
                                        dilithium_inv_layer_spec(
                                            dilithium_inv_layer_spec(c, 1, 255),
                                            2,
                                            127,
                                        ),
                                        4,
                                        63,
                                    ),
                                    8,
                                    31,
                                ),
                                16,
                                15,
                            ),
                            32,
                            7,
                        ),
                        64,
                        3,
                    ),
                    128,
                    1,
                )[i] * 41978,
            ) as i32,
    )
}

fn dilithium_ntt_layer(c: &mut [i32; 256], z: &[i32; 255], len: usize, k0: usize, Ghost(b): Ghost<
    int,
>)
    requires
        1 <= len <= 128,
        (k0 + 1) * len == 128,
        0 <= b,
        b + 8380417 <= 2147483647,
        dcoeffs_bounded(old(c)@, b),
        dcoeffs_bounded(z@, 8380416),
        forall|j: int| 0 <= j < 255 ==> #[trigger] z@[j] == dilithium_zeta(j),
    ensures
        dcoeffs_bounded(final(c)@, b + 8380417),
        final(c)@ == dilithium_ntt_layer_spec(old(c)@, len as int, k0 as int),
{
    proof {
        assert(k0 < 128) by (nonlinear_arith)
            requires
                (k0 + 1) * len == 128,
                1 <= len <= 128,
                0 <= k0,
        ;
    }
    let ghost c0 = c@;
    let ghost lspec = dilithium_ntt_layer_spec(c0, len as int, k0 as int);
    let groups: usize = k0 + 1;
    let mut g: usize = 0;
    let mut start: usize = 0;
    while g < groups
        invariant
            1 <= len <= 128,
            (k0 + 1) * len == 128,
            groups == k0 + 1,
            g <= groups,
            start == g * (2 * len),
            start <= 256,
            0 <= b,
            b + 8380417 <= 2147483647,
            c@.len() == 256,
            c0.len() == 256,
            lspec == dilithium_ntt_layer_spec(c0, len as int, k0 as int),
            dcoeffs_bounded(c0, b),
            z@.len() == 255,
            dcoeffs_bounded(z@, 8380416),
            forall|j: int| 0 <= j < 255 ==> #[trigger] z@[j] == dilithium_zeta(j),
            forall|i: int| 0 <= i < start ==> -(b + 8380417) <= #[trigger] c@[i] <= b + 8380417,
            forall|i: int| 0 <= i < start ==> #[trigger] c@[i] == lspec[i],
            forall|i: int| start <= i < 256 ==> #[trigger] c@[i] == c0[i],
        decreases groups - g,
    {
        proof {
            assert((g + 1) * (2 * len) <= (k0 + 1) * (2 * len) && (k0 + 1) * (2 * len) == 256 && g
                * (2 * len) + 2 * len == (g + 1) * (2 * len) && k0 + g < 255) by (nonlinear_arith)
                requires
                    g < groups,
                    groups == k0 + 1,
                    (k0 + 1) * len == 128,
                    1 <= len <= 128,
            ;
        }
        let zeta: i32 = z[k0 + g];
        proof {
            assert(-8380416 <= z@[k0 + g] <= 8380416);
        }
        let ghost gstart = start as int;
        let ghost gg = g as int;
        for j in start..(start + len)
            invariant
                1 <= len <= 128,
                start == gstart,
                gstart == gg * (2 * len),
                gstart + 2 * len <= 256,
                0 <= b,
                b + 8380417 <= 2147483647,
                c@.len() == 256,
                c0.len() == 256,
                lspec == dilithium_ntt_layer_spec(c0, len as int, k0 as int),
                dcoeffs_bounded(c0, b),
                -8380416 <= zeta <= 8380416,
                zeta == dilithium_zeta(k0 + gg),
                forall|i: int| 0 <= i < gstart ==> -(b + 8380417) <= #[trigger] c@[i] <= b + 8380417,
                forall|i: int| 0 <= i < gstart ==> #[trigger] c@[i] == lspec[i],
                forall|i: int| gstart <= i < j ==> -(b + 8380417) <= #[trigger] c@[i] <= b + 8380417,
                forall|i: int| gstart <= i < j ==> #[trigger] c@[i] == lspec[i],
                forall|i: int| j <= i < gstart + len ==> #[trigger] c@[i] == c0[i],
                forall|i: int|
                    gstart + len <= i < j + len ==> -(b + 8380417) <= #[trigger] c@[i] <= b
                        + 8380417,
                forall|i: int| gstart + len <= i < j + len ==> #[trigger] c@[i] == lspec[i],
                forall|i: int| j + len <= i < 256 ==> #[trigger] c@[i] == c0[i],
        {
            proof {
                assert(-2147483648 * 8380416 <= (c@[j + len] as int) * (zeta as int) <= 2147483648
                    * 8380416 && 2147483648 * 8380416 < 2147483648 * 8380417) by (nonlinear_arith)
                    requires
                        -2147483648 <= c@[j + len] <= 2147483647,
                        -8380416 <= zeta <= 8380416,
                ;
                vstd::arithmetic::div_mod::lemma_fundamental_div_mod_converse(
                    j as int,
                    2 * (len as int),
                    gg,
                    j - gstart,
                );
                vstd::arithmetic::div_mod::lemma_fundamental_div_mod_converse(
                    j + len,
                    2 * (len as int),
                    gg,
                    j + len - gstart,
                );
            }
            let t = dilithium_fqmul(c[j + len], zeta);
            c[j + len] = c[j] - t;
            c[j] = c[j] + t;
        }
        start = start + 2 * len;
        g = g + 1;
    }
    proof {
        assert(groups * (2 * len) == 256) by (nonlinear_arith)
            requires
                groups == k0 + 1,
                (k0 + 1) * len == 128,
        ;
        assert(c@ =~= lspec);
    }
}

fn dilithium_inv_layer(c: &mut [i32; 256], z: &[i32; 255], len: usize, k_top: usize, Ghost(
    b,
): Ghost<int>)
    requires
        1 <= len <= 128,
        len * k_top == 256 - len,
        8380416 <= b,
        2 * b <= 2147483647,
        dcoeffs_bounded(old(c)@, b),
        dcoeffs_bounded(z@, 8380416),
        forall|j: int| 0 <= j < 255 ==> #[trigger] z@[j] == dilithium_zeta(j),
    ensures
        dcoeffs_bounded(final(c)@, 2 * b),
        final(c)@ == dilithium_inv_layer_spec(old(c)@, len as int, k_top as int),
{
    let ghost c0 = c@;
    let ghost lspec = dilithium_inv_layer_spec(c0, len as int, k_top as int);
    let groups: usize = 256 / (2 * len);
    proof {
        assert(groups * (2 * len) == 256 && k_top >= groups && k_top <= 255) by (nonlinear_arith)
            requires
                1 <= len <= 128,
                len * k_top == 256 - len,
                groups == 256int / (2 * len),
        ;
    }
    let mut g: usize = 0;
    let mut start: usize = 0;
    while g < groups
        invariant
            1 <= len <= 128,
            groups * (2 * len) == 256,
            k_top >= groups,
            k_top <= 255,
            g <= groups,
            start == g * (2 * len),
            start <= 256,
            8380416 <= b,
            2 * b <= 2147483647,
            c@.len() == 256,
            c0.len() == 256,
            lspec == dilithium_inv_layer_spec(c0, len as int, k_top as int),
            dcoeffs_bounded(c0, b),
            z@.len() == 255,
            dcoeffs_bounded(z@, 8380416),
            forall|j: int| 0 <= j < 255 ==> #[trigger] z@[j] == dilithium_zeta(j),
            forall|i: int| 0 <= i < start ==> -(2 * b) <= #[trigger] c@[i] <= 2 * b,
            forall|i: int| 0 <= i < start ==> #[trigger] c@[i] == lspec[i],
            forall|i: int| start <= i < 256 ==> #[trigger] c@[i] == c0[i],
        decreases groups - g,
    {
        proof {
            assert((g + 1) * (2 * len) <= groups * (2 * len) && g * (2 * len) + 2 * len == (g + 1)
                * (2 * len)) by (nonlinear_arith)
                requires
                    g < groups,
                    1 <= len,
            ;
        }
        let zeta: i32 = z[k_top - 1 - g];
        proof {
            assert(-8380416 <= z@[k_top - 1 - g] <= 8380416);
        }
        let ghost gstart = start as int;
        let ghost gg = g as int;
        for j in start..(start + len)
            invariant
                1 <= len <= 128,
                start == gstart,
                gstart == gg * (2 * len),
                gstart + 2 * len <= 256,
                8380416 <= b,
                2 * b <= 2147483647,
                c@.len() == 256,
                c0.len() == 256,
                lspec == dilithium_inv_layer_spec(c0, len as int, k_top as int),
                dcoeffs_bounded(c0, b),
                -8380416 <= zeta <= 8380416,
                zeta == dilithium_zeta(k_top - 1 - gg),
                forall|i: int| 0 <= i < gstart ==> -(2 * b) <= #[trigger] c@[i] <= 2 * b,
                forall|i: int| 0 <= i < gstart ==> #[trigger] c@[i] == lspec[i],
                forall|i: int| gstart <= i < j ==> -(2 * b) <= #[trigger] c@[i] <= 2 * b,
                forall|i: int| gstart <= i < j ==> #[trigger] c@[i] == lspec[i],
                forall|i: int| j <= i < gstart + len ==> #[trigger] c@[i] == c0[i],
                forall|i: int| gstart + len <= i < j + len ==> -(2 * b) <= #[trigger] c@[i] <= 2 * b,
                forall|i: int| gstart + len <= i < j + len ==> #[trigger] c@[i] == lspec[i],
                forall|i: int| j + len <= i < 256 ==> #[trigger] c@[i] == c0[i],
        {
            proof {
                vstd::arithmetic::div_mod::lemma_fundamental_div_mod_converse(
                    j as int,
                    2 * (len as int),
                    gg,
                    j - gstart,
                );
                vstd::arithmetic::div_mod::lemma_fundamental_div_mod_converse(
                    j + len,
                    2 * (len as int),
                    gg,
                    j + len - gstart,
                );
            }
            let u = c[j];
            let v = c[j + len];
            c[j] = u + v;
            proof {
                assert(-2147483648 * 8380416 <= ((v - u) as int) * (zeta as int) <= 2147483648
                    * 8380416 && 2147483648 * 8380416 < 2147483648 * 8380417) by (nonlinear_arith)
                    requires
                        -2147483648 <= v - u <= 2147483647,
                        -8380416 <= zeta <= 8380416,
                ;
            }
            c[j + len] = dilithium_fqmul(v - u, zeta);
        }
        start = start + 2 * len;
        g = g + 1;
    }
    proof {
        assert(c@ =~= lspec);
    }
}

} // verus!
