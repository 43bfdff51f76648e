//! Kyber polynomials: 256 coefficients modulo q = 3329, stored flat, with
//! the seven-layer number-theoretic transform, its inverse, pointwise
//! multiplication in the NTT domain, noise and uniform sampling, and the
//! serialization, compression and message codecs.

pub use crate::codec::unpacked_field;

use crate::codec::{bit_of, pack_fields, pack_spec, unpack_fields};
use crate::fips202::{shake256_spec, Shake128, Shake256};
use crate::fq_kyber::{barrett_reduce, barrett_spec, caddq, canon, fqmul, mont_red, q, KyberFq};
use crate::modular::cong;
use vstd::arithmetic::power2::pow2;
use vstd::prelude::*;

verus! {

/// Number of scalar coefficients.
pub const KYBER_N: usize = 256;

/// Bytes of a serialized polynomial: 12 bits per coefficient.
pub const POLYBYTES: usize = 384;

/// Bytes of an encoded message: one bit per coefficient.
pub const MSG_BYTES: usize = 32;

/// Bytes of a noise seed.
pub const NOISE_SEED_BYTES: usize = 32;

/// Bytes of a public matrix seed.
pub const UNIFORM_SEED_BYTES: usize = 32;

/// Montgomery form of the 256-th root of unity 17 used to build the
/// twiddle table: (MONT * 17) mod q.
pub const ROOT_OF_UNITY_MONT: i16 = -1103;

/// Scale factor applied by the inverse NTT: 128^-1 * 2^32 mod q.
pub const INV_NTT_SCALE: i16 = 1441;

/// Every coefficient of `s` lies in `[-b, b]`.
pub open spec fn coeffs_bounded(s: Seq<i16>, b: int) -> bool {
    forall|i: int| 0 <= i < s.len() ==> -b <= #[trigger] s[i] <= b
}

/// A Kyber polynomial; the NTT domain is tracked by the caller, not the type.
#[derive(Clone, Copy)]
pub struct KyberPoly {
    c: [i16; 256],
}

/// A Kyber polynomial always holds exactly 256 coefficients.
pub broadcast proof fn kyber_poly_len(p: KyberPoly)
    ensures
        (#[trigger] p.coeffs()).len() == 256,
{
}

impl KyberPoly {
    /// The coefficient sequence.
    pub closed spec fn coeffs(&self) -> Seq<i16> {
        self.c@
    }

    pub open spec fn bounded(&self, b: int) -> bool {
        coeffs_bounded(self.coeffs(), b)
    }

    /// The all-zero polynomial.
    pub fn new() -> (r: KyberPoly)
        ensures
            r.coeffs() =~= Seq::new(256, |i: int| 0i16),
            r.bounded(0),
    {
        KyberPoly { c: [0i16; 256] }
    }

    pub fn from_array(a: [i16; 256]) -> (r: KyberPoly)
        ensures
            r.coeffs() == a@,
    {
        KyberPoly { c: a }
    }

    /// The coefficients as a plain array.
    pub fn into_array(&self) -> (r: [i16; 256])
        ensures
            r@ == self.coeffs(),
    {
        self.c
    }

    pub fn coeff(&self, i: usize) -> (r: i16)
        requires
            i < 256,
        ensures
            r == self.coeffs()[i as int],
    {
        self.c[i]
    }

    pub fn set_coeff(&mut self, i: usize, v: i16)
        requires
            i < 256,
        ensures
            final(self).coeffs() == old(self).coeffs().update(i as int, v),
    {
        self.c[i] = v;
    }

    /// Barrett-reduce every coefficient: each result is exactly the
    /// Barrett reduction of its input, congruent to it and in the
    /// canonical centered range.
    pub fn reduce(&mut self)
        ensures
            final(self).bounded(1664),
            forall|i: int|
                0 <= i < 256 ==> #[trigger] final(self).coeffs()[i] as int == barrett_spec(
                    old(self).coeffs()[i] as int,
                ),
            forall|i: int|
                0 <= i < 256 ==> cong(
                    q(),
                    #[trigger] final(self).coeffs()[i] as int,
                    old(self).coeffs()[i] as int,
                ),
    {
        let ghost s0 = self.c@;
        for i in 0..256
            invariant
                self.c@.len() == 256,
                s0.len() == 256,
                forall|k: int| i <= k < 256 ==> self.c@[k] == s0[k],
                forall|k: int| 0 <= k < i ==> -1664 <= #[trigger] self.c@[k] <= 1664,
                forall|k: int|
                    0 <= k < i ==> #[trigger] self.c@[k] as int == barrett_spec(s0[k] as int),
                forall|k: int| 0 <= k < i ==> cong(q(), #[trigger] self.c@[k] as int, s0[k] as int),
        {
            self.c[i] = barrett_reduce(self.c[i]);
        }
    }

    /// Add `other` coefficientwise; no reduction is performed, so the
    /// sums must fit the coefficient type.
    pub fn add_assign(&mut self, other: &KyberPoly)
        requires
            forall|i: int|
                0 <= i < 256 ==> -32768 <= (#[trigger] old(self).coeffs()[i]) + other.coeffs()[i]
                    <= 32767,
        ensures
            forall|i: int|
                0 <= i < 256 ==> #[trigger] final(self).coeffs()[i] == old(self).coeffs()[i]
                    + other.coeffs()[i],
            final(self).coeffs().len() == 256,
    {
        let ghost s0 = self.c@;
        for i in 0..256
            invariant
                self.c@.len() == 256,
                s0.len() == 256,
                s0 == old(self).coeffs(),
                other.coeffs().len() == 256,
                forall|k: int|
                    0 <= k < 256 ==> -32768 <= (#[trigger] old(self).coeffs()[k])
                        + other.coeffs()[k] <= 32767,
                forall|k: int| i <= k < 256 ==> self.c@[k] == s0[k],
                forall|k: int| 0 <= k < i ==> #[trigger] self.c@[k] == s0[k] + other.coeffs()[k],
        {
            proof {
                assert(-32768 <= old(self).coeffs()[i as int] + other.coeffs()[i as int] <= 32767);
            }
            self.c[i] = self.c[i] + other.coeff(i);
        }
    }

    /// Subtract `other` coefficientwise; no reduction is performed.
    pub fn sub_assign(&mut self, other: &KyberPoly)
        requires
            forall|i: int|
                0 <= i < 256 ==> -32768 <= (#[trigger] old(self).coeffs()[i]) - other.coeffs()[i]
                    <= 32767,
        ensures
            forall|i: int|
                0 <= i < 256 ==> #[trigger] final(self).coeffs()[i] == old(self).coeffs()[i]
                    - other.coeffs()[i],
            final(self).coeffs().len() == 256,
    {
        let ghost s0 = self.c@;
        for i in 0..256
            invariant
                self.c@.len() == 256,
                s0.len() == 256,
                s0 == old(self).coeffs(),
                other.coeffs().len() == 256,
                forall|k: int|
                    0 <= k < 256 ==> -32768 <= (#[trigger] old(self).coeffs()[k])
                        - other.coeffs()[k] <= 32767,
                forall|k: int| i <= k < 256 ==> self.c@[k] == s0[k],
                forall|k: int| 0 <= k < i ==> #[trigger] self.c@[k] == s0[k] - other.coeffs()[k],
        {
            proof {
                assert(-32768 <= old(self).coeffs()[i as int] - other.coeffs()[i as int] <= 32767);
            }
            self.c[i] = self.c[i] - other.coeff(i);
        }
    }

    /// Multiply every coefficient by MONT^2 through a Montgomery product,
    /// moving the polynomial into the Montgomery domain.
    pub fn into_montgomery(&mut self)
        ensures
            forall|i: int|
                0 <= i < 256 ==> #[trigger] final(self).coeffs()[i] as int == mont_red(
                    old(self).coeffs()[i] * 1353,
                ),
            final(self).bounded(3328),
            forall|i: int|
                0 <= i < 256 ==> cong(
                    q(),
                    65536 * (#[trigger] final(self).coeffs()[i]),
                    1353 * old(self).coeffs()[i],
                ),
    {
        let ghost s0 = self.c@;
        for i in 0..256
            invariant
                self.c@.len() == 256,
                s0.len() == 256,
                forall|k: int| i <= k < 256 ==> self.c@[k] == s0[k],
                forall|k: int| 0 <= k < i ==> -3328 <= #[trigger] self.c@[k] <= 3328,
                forall|k: int|
                    0 <= k < i ==> #[trigger] self.c@[k] as int == mont_red(s0[k] * 1353),
                forall|k: int|
                    0 <= k < i ==> cong(q(), 65536 * (#[trigger] self.c@[k]), 1353 * s0[k]),
        {
            proof {
                assert(-32768 * 1353 <= (s0[i as int] as int) * 1353 <= 32768 * 1353)
                    by (nonlinear_arith)
                    requires
                        -32768 <= s0[i as int] <= 32767,
                ;
            }
            self.c[i] = fqmul(self.c[i], 1353);
        }
    }

    /// Forward NTT, decimation in time, stopping at quadratic factors:
    /// seven butterfly layers, each of which can grow every coefficient
    /// by at most q. The result is exactly the layered butterfly
    /// computation `kyber_ntt_spec`.
    pub fn ntt(&mut self)
        requires
            old(self).bounded(3329),
        ensures
            final(self).coeffs() == kyber_ntt_spec(old(self).coeffs()),
            final(self).bounded(26632),
    {
        proof {
            reveal(kyber_ntt_spec);
        }
        let z = kyber_zetas();
        ntt_layer(&mut self.c, &z, 128, 0, Ghost(3329));
        ntt_layer(&mut self.c, &z, 64, 1, Ghost(6658));
        ntt_layer(&mut self.c, &z, 32, 3, Ghost(9987));
        ntt_layer(&mut self.c, &z, 16, 7, Ghost(13316));
        ntt_layer(&mut self.c, &z, 8, 15, Ghost(16645));
        ntt_layer(&mut self.c, &z, 4, 31, Ghost(19974));
        ntt_layer(&mut self.c, &z, 2, 63, Ghost(23303));
    }

    /// Forward NTT followed by a full Barrett reduction: exactly the
    /// Barrett map of the layered transform.
    pub fn ntt_and_reduce(&mut self)
        requires
            old(self).bounded(3329),
        ensures
            final(self).coeffs() == barrett_map(kyber_ntt_spec(old(self).coeffs())),
            final(self).bounded(1664),
    {
        self.ntt();
        self.reduce();
        proof {
            assert(self.coeffs() =~= barrett_map(kyber_ntt_spec(old(self).coeffs())));
        }
    }

    /// Inverse NTT: seven Gentleman-Sande layers with lazy Barrett
    /// reductions, then a scale by 128^-1 in the Montgomery domain. The
    /// result is exactly the layered computation `kyber_inv_ntt_spec`.
    pub fn inv_ntt(&mut self)
        requires
            old(self).bounded(3329),
        ensures
            final(self).coeffs() == kyber_inv_ntt_spec(old(self).coeffs()),
            final(self).bounded(3328),
    {
        proof {
            reveal(kyber_inv_ntt_spec);
        }
        let z = kyber_zetas();
        inv_ntt_layer(&mut self.c, &z, 2, 127);
        inv_ntt_layer(&mut self.c, &z, 4, 63);
        inv_ntt_layer(&mut self.c, &z, 8, 31);
        inv_ntt_layer(&mut self.c, &z, 16, 15);
        inv_ntt_layer(&mut self.c, &z, 32, 7);
        inv_ntt_layer(&mut self.c, &z, 64, 3);
        inv_ntt_layer(&mut self.c, &z, 128, 1);
        let ghost s0 = self.c@;
        for i in 0..256
            invariant
                self.c@.len() == 256,
                s0.len() == 256,
                coeffs_bounded(s0, 3329),
                forall|k: int| i <= k < 256 ==> self.c@[k] == s0[k],
                forall|k: int| 0 <= k < i ==> -3328 <= #[trigger] self.c@[k] <= 3328,
                forall|k: int|
                    0 <= k < i ==> #[trigger] self.c@[k] as int == mont_red(s0[k] * 1441),
        {
            proof {
                assert(-3329 * 1441 <= (s0[i as int] as int) * 1441 <= 3329 * 1441)
                    by (nonlinear_arith)
                    requires
                        -3329 <= s0[i as int] <= 3329,
                ;
            }
            self.c[i] = fqmul(self.c[i], INV_NTT_SCALE);
        }
        proof {
            assert(self.c@ =~= kyber_inv_ntt_spec(old(self).coeffs()));
        }
    }

    /// Pointwise product in the NTT domain: the degree-2 schoolbook base
    /// case on each adjacent coefficient pair, with alternating twiddle
    /// signs, accumulated onto `result`.
    pub fn pointwise_acc(&self, other: &KyberPoly, result: &mut KyberPoly)
        requires
            self.bounded(4095),
            other.bounded(1664),
            old(result).bounded(22400),
        ensures
            forall|k: int|
                0 <= k < 256 ==> #[trigger] final(result).coeffs()[k] == old(result).coeffs()[k]
                    + pointwise_term(self.coeffs(), other.coeffs(), k),
            forall|k: int|
                0 <= k < 256 ==> old(result).coeffs()[k] - 6900 <= #[trigger] final(result).coeffs()[k]
                    <= old(result).coeffs()[k] + 6900,
            final(result).coeffs().len() == 256,
    {
        let z = kyber_zetas();
        pointwise_acc_with(&self.c, &other.c, result, &z);
    }

    /// Pointwise product in the NTT domain written to a fresh `result`.
    pub fn pointwise(&self, other: &KyberPoly, result: &mut KyberPoly)
        requires
            self.bounded(4095),
            other.bounded(1664),
        ensures
            forall|k: int|
                0 <= k < 256 ==> #[trigger] final(result).coeffs()[k] == pointwise_term(
                    self.coeffs(),
                    other.coeffs(),
                    k,
                ),
            final(result).bounded(6900),
    {
        let mut acc = KyberPoly::new();
        let z = kyber_zetas();
        pointwise_acc_with(&self.c, &other.c, &mut acc, &z);
        *result = acc;
    }
}

/// The 7-bit reversal of `k`.
pub open spec fn rev7(k: u16) -> u16 {
    ((k & 1) << 6) | ((k & 2) << 4) | ((k & 4) << 2) | (k & 8) | ((k & 16) >> 2) | ((k & 32) >> 4)
        | ((k & 64) >> 6)
}

/// The Montgomery root of unity raised to the `e`-th power: the chain of
/// Montgomery products the twiddle generator walks.
pub open spec fn komega(e: nat) -> i16
    decreases e,
{
    if e == 0 {
        -1044i16
    } else {
        mont_red((komega((e - 1) as nat) as int) * -1103) as i16
    }
}

/// Twiddle factor `j` of the table: the root raised to the bit-reversed
/// exponent, in Montgomery form.
pub open spec fn kyber_zeta(j: int) -> i16 {
    komega(rev7((j + 1) as u16) as nat)
}

proof fn lemma_rev7_involution(k: u16)
    by (bit_vector)
    ensures
        k < 128 ==> rev7(rev7(k)) == k,
        k < 128 ==> rev7(k) < 128,
        1 <= k < 128 ==> 1 <= rev7(k),
{
}

/// The 127 twiddle factors in Montgomery form: the Montgomery root of
/// unity raised to bit-reversed exponents, exactly as the reference
/// twiddle table is generated.
pub fn kyber_zetas() -> (z: [i16; 127])
    ensures
        coeffs_bounded(z@, 3328),
        forall|j: int| 0 <= j < 127 ==> #[trigger] z@[j] == kyber_zeta(j),
{
    let mut z = [0i16; 127];
    let mut omega: i16 = crate::fq_kyber::MONT;
    for i in 1..128usize
        invariant
            z@.len() == 127,
            -3328 <= omega <= 3328,
            omega == komega((i - 1) as nat),
            coeffs_bounded(z@, 3328),
            forall|t: int|
                1 <= t < i ==> #[trigger] z@[rev7(t as u16) - 1] == komega(t as nat),
    {
        proof {
            assert(-3328 * 1103 <= (omega as int) * (-1103) <= 3328 * 1103) by (nonlinear_arith)
                requires
                    -3328 <= omega <= 3328,
            ;
        }
        omega = fqmul(omega, ROOT_OF_UNITY_MONT);
        let br = bit_reverse7(i);
        z[br - 1] = omega;
        proof {
            assert forall|t: int| 1 <= t < i + 1 implies #[trigger] z@[rev7(t as u16) - 1]
                == komega(t as nat) by {
                lemma_rev7_involution(t as u16);
                lemma_rev7_involution(i as u16);
                if t != i {
                    assert(rev7(t as u16) != rev7(i as u16));
                }
            }
        }
    }
    proof {
        assert forall|j: int| 0 <= j < 127 implies #[trigger] z@[j] == kyber_zeta(j) by {
            lemma_rev7_involution((j + 1) as u16);
            assert(z@[rev7(rev7((j + 1) as u16)) - 1] == komega(rev7((j + 1) as u16) as nat));
        }
    }
    z
}

/// The 7-bit reversal of `i`, used to order the twiddle table.
fn bit_reverse7(i: usize) -> (r: usize)
    requires
        1 <= i < 128,
    ensures
        1 <= r < 128,
        r == rev7(i as u16),
{
    proof {
        assert(1 <= rev7(i as u16) < 128 && ((((i as u16) & 1) << 6) | (((i as u16) & 2) << 4) | ((
        (i as u16) & 4) << 2) | ((i as u16) & 8) | (((i as u16) & 16) >> 2) | (((i as u16) & 32)
            >> 4) | (((i as u16) & 64) >> 6)) == rev7(i as u16)) by (bit_vector)
            requires
                1 <= i < 128,
        ;
    }
    let k: u16 = i as u16;
    let r: u16 = ((k & 1) << 6) | ((k & 2) << 4) | ((k & 4) << 2) | (k & 8) | ((k & 16) >> 2) | ((k
        & 32) >> 4) | ((k & 64) >> 6);
    r as usize
}

/// One forward butterfly layer, as a pointwise function of the previous
/// state: each pair `(j, j+len)` becomes `(c[j]+t, c[j]-t)` with
/// `t = mont_red(c[j+len] * zeta)` for the group's twiddle.
pub open spec fn ntt_layer_spec(c: Seq<i16>, len: int, k0: int) -> Seq<i16> {
    Seq::new(
        256,
        |i: int|
            {
                let zeta = kyber_zeta(k0 + i / (2 * len));
                if i % (2 * len) < len {
                    (c[i] + mont_red(c[i + len] * zeta)) as i16
                } else {
                    (c[i - len] - mont_red(c[i] * zeta)) as i16
                }
            },
    )
}

/// The seven-layer forward transform.
#[verifier::opaque]
pub open spec fn kyber_ntt_spec(c: Seq<i16>) -> Seq<i16> {
    ntt_layer_spec(
        ntt_layer_spec(
            ntt_layer_spec(
                ntt_layer_spec(
                    ntt_layer_spec(ntt_layer_spec(ntt_layer_spec(c, 128, 0), 64, 1), 32, 3),
                    16,
                    7,
                ),
                8,
                15,
            ),
            4,
            31,
        ),
        2,
        63,
    )
}

/// Every coefficient Barrett-reduced.
pub open spec fn barrett_map(s: Seq<i16>) -> Seq<i16> {
    Seq::new(s.len(), |i: int| barrett_spec(s[i] as int) as i16)
}

/// Coefficient `k` of the NTT-domain product of `a` and `b`: the exact
/// base-case component for its coefficient pair, with the group's
/// twiddle, negated for the second pair of each group of four.
pub open spec fn pointwise_term(a: Seq<i16>, b: Seq<i16>, k: int) -> int {
    let base = k / 2 * 2;
    let zeta = if k % 4 < 2 {
        kyber_zeta(63 + k / 4)
    } else {
        (-kyber_zeta(63 + k / 4)) as i16
    };
    if k % 2 == 0 {
        crate::fq_kyber::basemul0_spec(a[base], a[base + 1], b[base], b[base + 1], zeta)
    } else {
        crate::fq_kyber::basemul1_spec(a[base], a[base + 1], b[base], b[base + 1])
    }
}

/// One inverse butterfly layer: each pair `(j, j+len)` becomes
/// `(barrett(c[j]+c[j+len]), mont_red((c[j+len]-c[j]) * zeta))`.
pub open spec fn inv_ntt_layer_spec(c: Seq<i16>, len: int, k_top: int) -> Seq<i16> {
    Seq::new(
        256,
        |i: int|
            {
                let zeta = kyber_zeta(k_top - 1 - i / (2 * len));
                if i % (2 * len) < len {
                    barrett_spec(c[i] + c[i + len]) as i16
                } else {
                    mont_red((c[i] - c[i - len]) * zeta) as i16
                }
            },
    )
}

/// The seven inverse layers followed by the Montgomery scale by 128^-1.
#[verifier::opaque]
pub open spec fn kyber_inv_ntt_spec(c: Seq<i16>) -> Seq<i16> {
    Seq::new(
        256,
        |i: int|
            mont_red(
                inv_ntt_layer_spec(
                    inv_ntt_layer_spec(
                        inv_ntt_layer_spec(
                            inv_ntt_layer_spec(
                                inv_ntt_layer_spec(
                                    inv_ntt_layer_spec(inv_ntt_layer_spec(c, 2, 127), 4, 63),
                                    8,
                                    31,
                                ),
                                16,
                                15,
                            ),
                            32,
                            7,
                        ),
                        64,
                        3,
                    ),
                    128,
                    1,
                )[i] * 1441,
            ) as i16,
    )
}

fn ntt_layer(c: &mut [i16; 256], z: &[i16; 127], len: usize, k0: usize, Ghost(b): Ghost<int>)
    requires
        2 <= len <= 128,
        (k0 + 1) * len == 128,
        0 <= b,
        b + 3329 <= 32767,
        coeffs_bounded(old(c)@, b),
        coeffs_bounded(z@, 3328),
        forall|j: int| 0 <= j < 127 ==> #[trigger] z@[j] == kyber_zeta(j),
    ensures
        coeffs_bounded(final(c)@, b + 3329),
        final(c)@ == ntt_layer_spec(old(c)@, len as int, k0 as int),
{
    proof {
        assert(k0 < 64) by (nonlinear_arith)
            requires
                (k0 + 1) * len == 128,
                2 <= len <= 128,
                0 <= k0,
        ;
    }
    let ghost c0 = c@;
    let ghost lspec = ntt_layer_spec(c0, len as int, k0 as int);
    let groups: usize = k0 + 1;
    let mut g: usize = 0;
    let mut start: usize = 0;
    while g < groups
        invariant
            2 <= len <= 128,
            (k0 + 1) * len == 128,
            groups == k0 + 1,
            g <= groups,
            start == g * (2 * len),
            start <= 256,
            0 <= b,
            b + 3329 <= 32767,
            c@.len() == 256,
            c0.len() == 256,
            lspec == ntt_layer_spec(c0, len as int, k0 as int),
            coeffs_bounded(c0, b),
            z@.len() == 127,
            coeffs_bounded(z@, 3328),
            forall|j: int| 0 <= j < 127 ==> #[trigger] z@[j] == kyber_zeta(j),
            forall|i: int| 0 <= i < start ==> -(b + 3329) <= #[trigger] c@[i] <= b + 3329,
            forall|i: int| 0 <= i < start ==> #[trigger] c@[i] == lspec[i],
            forall|i: int| start <= i < 256 ==> #[trigger] c@[i] == c0[i],
        decreases groups - g,
    {
        proof {
            assert((g + 1) * (2 * len) <= (k0 + 1) * (2 * len) && (k0 + 1) * (2 * len) == 256 && g
                * (2 * len) + 2 * len == (g + 1) * (2 * len) && k0 + g < 127) by (nonlinear_arith)
                requires
                    g < groups,
                    groups == k0 + 1,
                    (k0 + 1) * len == 128,
                    2 <= len <= 128,
            ;
        }
        let zeta: i16 = z[k0 + g];
        proof {
            assert(-3328 <= z@[k0 + g] <= 3328);
        }
        let ghost gstart = start as int;
        let ghost gg = g as int;
        for j in start..(start + len)
            invariant
                2 <= len <= 128,
                start == gstart,
                gstart == gg * (2 * len),
                gstart + 2 * len <= 256,
                0 <= b,
                b + 3329 <= 32767,
                c@.len() == 256,
                c0.len() == 256,
                lspec == ntt_layer_spec(c0, len as int, k0 as int),
                coeffs_bounded(c0, b),
                -3328 <= zeta <= 3328,
                zeta == kyber_zeta(k0 + gg),
                forall|i: int| 0 <= i < gstart ==> -(b + 3329) <= #[trigger] c@[i] <= b + 3329,
                forall|i: int| 0 <= i < gstart ==> #[trigger] c@[i] == lspec[i],
                forall|i: int| gstart <= i < j ==> -(b + 3329) <= #[trigger] c@[i] <= b + 3329,
                forall|i: int| gstart <= i < j ==> #[trigger] c@[i] == lspec[i],
                forall|i: int| j <= i < gstart + len ==> #[trigger] c@[i] == c0[i],
                forall|i: int|
                    gstart + len <= i < j + len ==> -(b + 3329) <= #[trigger] c@[i] <= b + 3329,
                forall|i: int| gstart + len <= i < j + len ==> #[trigger] c@[i] == lspec[i],
                forall|i: int| j + len <= i < 256 ==> #[trigger] c@[i] == c0[i],
        {
            proof {
                assert(-32768 * 3328 <= (c@[j + len] as int) * (zeta as int) <= 32768 * 3328)
                    by (nonlinear_arith)
                    requires
                        -32768 <= c@[j + len] <= 32767,
                        -3328 <= zeta <= 3328,
                ;
                vstd::arithmetic::div_mod::lemma_fundamental_div_mod_converse(
                    j as int,
                    2 * (len as int),
                    gg,
                    j - gstart,
                );
                vstd::arithmetic::div_mod::lemma_fundamental_div_mod_converse(
                    j + len,
                    2 * (len as int),
                    gg,
                    j + len - gstart,
                );
            }
            let t = fqmul(c[j + len], zeta);
            c[j + len] = c[j] - t;
            c[j] = c[j] + t;
        }
        start = start + 2 * len;
        g = g + 1;
    }
    proof {
        assert(groups * (2 * len) == 256) by (nonlinear_arith)
            requires
                groups == k0 + 1,
                (k0 + 1) * len == 128,
        ;
        assert(c@ =~= lspec);
    }
}

fn inv_ntt_layer(c: &mut [i16; 256], z: &[i16; 127], len: usize, k_top: usize)
    requires
        2 <= len <= 128,
        len * k_top == 256 - len,
        coeffs_bounded(old(c)@, 3329),
        coeffs_bounded(z@, 3328),
        forall|j: int| 0 <= j < 127 ==> #[trigger] z@[j] == kyber_zeta(j),
    ensures
        coeffs_bounded(final(c)@, 3329),
        final(c)@ == inv_ntt_layer_spec(old(c)@, len as int, k_top as int),
{
    let ghost c0 = c@;
    let ghost lspec = inv_ntt_layer_spec(c0, len as int, k_top as int);
    let groups: usize = 256 / (2 * len);
    proof {
        assert(groups * (2 * len) == 256 && k_top >= groups && k_top <= 127)
            by (nonlinear_arith)
            requires
                2 <= len <= 128,
                len * k_top == 256 - len,
                groups == 256int / (2 * len),
        ;
    }
    let mut g: usize = 0;
    let mut start: usize = 0;
    while g < groups
        invariant
            2 <= len <= 128,
            groups * (2 * len) == 256,
            k_top >= groups,
            k_top <= 127,
            g <= groups,
            start == g * (2 * len),
            start <= 256,
            c@.len() == 256,
            c0.len() == 256,
            lspec == inv_ntt_layer_spec(c0, len as int, k_top as int),
            coeffs_bounded(c0, 3329),
            z@.len() == 127,
            coeffs_bounded(z@, 3328),
            forall|j: int| 0 <= j < 127 ==> #[trigger] z@[j] == kyber_zeta(j),
            coeffs_bounded(c@, 3329),
            forall|i: int| 0 <= i < start ==> #[trigger] c@[i] == lspec[i],
            forall|i: int| start <= i < 256 ==> #[trigger] c@[i] == c0[i],
        decreases groups - g,
    {
        proof {
            assert((g + 1) * (2 * len) <= groups * (2 * len) && g * (2 * len) + 2 * len == (g + 1)
                * (2 * len)) by (nonlinear_arith)
                requires
                    g < groups,
                    2 <= len,
            ;
        }
        let zeta: i16 = z[k_top - 1 - g];
        proof {
            assert(-3328 <= z@[k_top - 1 - g] <= 3328);
        }
        let ghost gstart = start as int;
        let ghost gg = g as int;
        for j in start..(start + len)
            invariant
                2 <= len <= 128,
                start == gstart,
                gstart == gg * (2 * len),
                gstart + 2 * len <= 256,
                c@.len() == 256,
                c0.len() == 256,
                lspec == inv_ntt_layer_spec(c0, len as int, k_top as int),
                coeffs_bounded(c0, 3329),
                -3328 <= zeta <= 3328,
                zeta == kyber_zeta(k_top - 1 - gg),
                coeffs_bounded(c@, 3329),
                forall|i: int| 0 <= i < gstart ==> #[trigger] c@[i] == lspec[i],
                forall|i: int| gstart <= i < j ==> #[trigger] c@[i] == lspec[i],
                forall|i: int| j <= i < gstart + len ==> #[trigger] c@[i] == c0[i],
                forall|i: int| gstart + len <= i < j + len ==> #[trigger] c@[i] == lspec[i],
                forall|i: int| j + len <= i < 256 ==> #[trigger] c@[i] == c0[i],
        {
            proof {
                vstd::arithmetic::div_mod::lemma_fundamental_div_mod_converse(
                    j as int,
                    2 * (len as int),
                    gg,
                    j - gstart,
                );
                vstd::arithmetic::div_mod::lemma_fundamental_div_mod_converse(
                    j + len,
                    2 * (len as int),
                    gg,
                    j + len - gstart,
                );
            }
            let u = c[j];
            let v = c[j + len];
            c[j] = barrett_reduce(u + v);
            proof {
                assert(-6658 * 3328 <= ((v - u) as int) * (zeta as int) <= 6658 * 3328)
                    by (nonlinear_arith)
                    requires
                        -6658 <= v - u <= 6658,
                        -3328 <= zeta <= 3328,
                ;
            }
            c[j + len] = fqmul(v - u, zeta);
        }
        start = start + 2 * len;
        g = g + 1;
    }
    proof {
        assert(c@ =~= lspec);
    }
}

fn pointwise_acc_with(a: &[i16; 256], b: &[i16; 256], result: &mut KyberPoly, z: &[i16; 127])
    requires
        coeffs_bounded(a@, 4095),
        coeffs_bounded(b@, 1664),
        coeffs_bounded(z@, 3328),
        forall|j: int| 0 <= j < 127 ==> #[trigger] z@[j] == kyber_zeta(j),
        old(result).bounded(22400),
    ensures
        forall|k: int|
            0 <= k < 256 ==> #[trigger] final(result).coeffs()[k] == old(result).coeffs()[k]
                + pointwise_term(a@, b@, k),
        forall|k: int|
            0 <= k < 256 ==> old(result).coeffs()[k] - 6900 <= #[trigger] final(result).coeffs()[k]
                <= old(result).coeffs()[k] + 6900,
        final(result).coeffs().len() == 256,
{
    let ghost s0 = result.coeffs();
    for i in 0..64
        invariant
            a@.len() == 256,
            b@.len() == 256,
            z@.len() == 127,
            s0.len() == 256,
            coeffs_bounded(a@, 4095),
            coeffs_bounded(b@, 1664),
            coeffs_bounded(z@, 3328),
            forall|j: int| 0 <= j < 127 ==> #[trigger] z@[j] == kyber_zeta(j),
            coeffs_bounded(s0, 22400),
            result.coeffs().len() == 256,
            forall|k: int|
                0 <= k < 4 * i ==> #[trigger] result.coeffs()[k] == s0[k] + pointwise_term(
                    a@,
                    b@,
                    k,
                ),
            forall|k: int|
                0 <= k < 4 * i ==> s0[k] - 6900 <= #[trigger] result.coeffs()[k] <= s0[k] + 6900,
            forall|k: int| 4 * i <= k < 256 ==> #[trigger] result.coeffs()[k] == s0[k],
    {
        let ghost ii = i as int;
        proof {
            vstd::arithmetic::div_mod::lemma_fundamental_div_mod_converse(4 * ii, 4, ii, 0);
            vstd::arithmetic::div_mod::lemma_fundamental_div_mod_converse(4 * ii + 1, 4, ii, 1);
            vstd::arithmetic::div_mod::lemma_fundamental_div_mod_converse(4 * ii + 2, 4, ii, 2);
            vstd::arithmetic::div_mod::lemma_fundamental_div_mod_converse(4 * ii + 3, 4, ii, 3);
            vstd::arithmetic::div_mod::lemma_fundamental_div_mod_converse(4 * ii, 2, 2 * ii, 0);
            vstd::arithmetic::div_mod::lemma_fundamental_div_mod_converse(4 * ii + 1, 2, 2 * ii, 1);
            vstd::arithmetic::div_mod::lemma_fundamental_div_mod_converse(
                4 * ii + 2,
                2,
                2 * ii + 1,
                0,
            );
            vstd::arithmetic::div_mod::lemma_fundamental_div_mod_converse(
                4 * ii + 3,
                2,
                2 * ii + 1,
                1,
            );
        }
        let zeta = z[64 + i - 1];
        let fa0 = KyberFq([a[4 * i], a[4 * i + 1]]);
        let fb0 = KyberFq([b[4 * i], b[4 * i + 1]]);
        let r0 = fa0.basemul(fb0, zeta);
        let fa1 = KyberFq([a[4 * i + 2], a[4 * i + 3]]);
        let fb1 = KyberFq([b[4 * i + 2], b[4 * i + 3]]);
        let r1 = fa1.basemul(fb1, -zeta);
        let c0 = result.coeff(4 * i) + r0.0[0];
        result.set_coeff(4 * i, c0);
        let c1 = result.coeff(4 * i + 1) + r0.0[1];
        result.set_coeff(4 * i + 1, c1);
        let c2 = result.coeff(4 * i + 2) + r1.0[0];
        result.set_coeff(4 * i + 2, c2);
        let c3 = result.coeff(4 * i + 3) + r1.0[1];
        result.set_coeff(4 * i + 3, c3);
    }
}


/// The canonical representative of every coefficient, as unsigned fields.
pub open spec fn canon_u16(s: Seq<i16>) -> Seq<u16> {
    Seq::new(s.len(), |i: int| (((s[i] as int) % 3329) as u16))
}

/// Rounding compression of a canonical coefficient to `d` bits:
/// `round(2^d * x / q) mod 2^d`, with the half-up rounding constant
/// `(q - 1) / 2`.
pub open spec fn compress_spec(x: int, d: int) -> int
    recommends
        0 <= x < 3329,
        1 <= d <= 11,
{
    ((x * pow2(d as nat) + 1664) / 3329) % (pow2(d as nat) as int)
}

/// Decompression of a `d`-bit value back to a coefficient:
/// `round(q * y / 2^d)`.
pub open spec fn decompress_spec(y: int, d: int) -> int
    recommends
        0 <= y < pow2(d as nat),
        1 <= d <= 11,
{
    (y * 3329 + pow2((d - 1) as nat) as int) / (pow2(d as nat) as int)
}

/// The compressed `d`-bit fields of a polynomial.
pub open spec fn compressed_seq(s: Seq<i16>, d: int) -> Seq<u16> {
    Seq::new(s.len(), |i: int| compress_spec((s[i] as int) % 3329, d) as u16)
}

/// Compress one coefficient to `D` bits on its canonical representative.
pub fn compress_d<const D: usize>(x: i16) -> (r: u16)
    requires
        1 <= D <= 11,
        -3329 < x < 3329,
    ensures
        r as int == compress_spec(canon(x as int), D as int),
        (r as int) < pow2(D as nat),
        r < 2048,
{
    let v: i16 = caddq(x);
    let vu: u32 = v as u32;
    let d32: u32 = D as u32;
    proof {
        vstd::arithmetic::power2::lemma2_to64();
        if D < 11 {
            vstd::arithmetic::power2::lemma_pow2_strictly_increases(D as nat, 11);
        }
        vstd::bits::lemma_u32_shl_is_mul(1u32, d32);
        assert(vu * pow2(D as nat) <= 3328 * 2048) by (nonlinear_arith)
            requires
                vu <= 3328,
                pow2(D as nat) <= 2048,
        ;
        vstd::bits::lemma_u32_shl_is_mul(vu, d32);
    }
    let m: u32 = 1u32 << d32;
    let num: u32 = (vu << d32) + 1664;
    let r32: u32 = (num / 3329) % m;
    r32 as u16
}

/// Decompress a `D`-bit value to the nearest coefficient.
pub fn decompress_d<const D: usize>(y: u16) -> (r: i16)
    requires
        1 <= D <= 11,
        (y as int) < pow2(D as nat),
    ensures
        r as int == decompress_spec(y as int, D as int),
        0 <= r <= 3328,
{
    let d32: u32 = D as u32;
    proof {
        vstd::arithmetic::power2::lemma2_to64();
        if D < 11 {
            vstd::arithmetic::power2::lemma_pow2_strictly_increases(D as nat, 11);
        }
        vstd::arithmetic::power2::lemma_pow2_adds((D - 1) as nat, 1);
        assert((y as int) * 3329 <= 2047 * 3329) by (nonlinear_arith)
            requires
                y <= 2047,
        ;
        vstd::bits::lemma_u32_shl_is_mul(1u32, (d32 - 1) as u32);
        if D - 1 < 11 {
            vstd::arithmetic::power2::lemma_pow2_strictly_increases((D - 1) as nat, 11);
        }
    }
    let num: u32 = (y as u32) * 3329 + (1u32 << (d32 - 1));
    let r32: u32 = num >> d32;
    proof {
        vstd::bits::lemma_u32_shr_is_div(num, d32);
        assert((num as int) / (pow2(D as nat) as int) <= 3328) by (nonlinear_arith)
            requires
                num as int <= (pow2(D as nat) - 1) * 3329 + pow2((D - 1) as nat),
                pow2(D as nat) == 2 * pow2((D - 1) as nat),
                2 <= pow2(D as nat) <= 2048,
        ;
    }
    r32 as i16
}

impl KyberPoly {
    /// Serialize into 12-bit little-endian fields, three bytes per
    /// coefficient pair, on the canonical representatives.
    pub fn to_bytes(&self, bytes: &mut [u8])
        requires
            self.bounded(3328),
            old(bytes)@.len() == 384,
        ensures
            final(bytes)@ == pack_spec(canon_u16(self.coeffs()), 12, 384),
            final(bytes)@.len() == 384,
    {
        let mut vals: [u16; 256] = [0u16; 256];
        for i in 0..256
            invariant
                self.bounded(3328),
                vals@.len() == 256,
                forall|k: int| 0 <= k < i ==> vals@[k] == canon_u16(self.coeffs())[k],
        {
            let v = caddq(self.coeff(i));
            vals[i] = v as u16;
        }
        proof {
            assert(vals@ =~= canon_u16(self.coeffs()));
        }
        pack_fields(vals.as_slice(), 12, bytes);
    }

    /// Deserialize 12-bit little-endian fields; no validation is done,
    /// so coefficients lie in `[0, 4096)`.
    pub fn from_bytes(&mut self, bytes: &[u8])
        requires
            bytes@.len() == 384,
        ensures
            forall|i: int|
                0 <= i < 256 ==> #[trigger] final(self).coeffs()[i] == unpacked_field(
                    bytes@,
                    12,
                    i,
                ) as i16,
            forall|i: int| 0 <= i < 256 ==> 0 <= #[trigger] final(self).coeffs()[i] <= 4095,
    {
        let mut vals: [u16; 256] = [0u16; 256];
        unpack_fields(bytes, 12, vstd::array::ref_mut_array_unsizing_coercion(&mut vals));
        proof {
            assert((1u16 << 12u16) == 4096) by (bit_vector);
        }
        for i in 0..256
            invariant
                vals@.len() == 256,
                self.coeffs().len() == 256,
                forall|k: int| 0 <= k < 256 ==> #[trigger] vals@[k] == unpacked_field(bytes@, 12, k),
                forall|k: int| 0 <= k < 256 ==> #[trigger] vals@[k] < 4096,
                forall|k: int|
                    0 <= k < i ==> #[trigger] self.coeffs()[k] == unpacked_field(
                        bytes@,
                        12,
                        k,
                    ) as i16,
                forall|k: int| 0 <= k < i ==> 0 <= #[trigger] self.coeffs()[k] <= 4095,
        {
            self.c[i] = vals[i] as i16;
        }
    }

    /// Compress every coefficient to `D` bits and pack the fields.
    pub fn compress_slice<const D: usize>(&self, ct: &mut [u8])
        requires
            1 <= D <= 11,
            self.bounded(3328),
            old(ct)@.len() == 32 * D,
        ensures
            final(ct)@ == pack_spec(compressed_seq(self.coeffs(), D as int), D as int, 32 * D),
            final(ct)@.len() == old(ct)@.len(),
    {
        let mut vals: [u16; 256] = [0u16; 256];
        for i in 0..256
            invariant
                1 <= D <= 11,
                self.bounded(3328),
                vals@.len() == 256,
                forall|k: int|
                    0 <= k < i ==> vals@[k] == compressed_seq(self.coeffs(), D as int)[k],
        {
            vals[i] = compress_d::<D>(self.coeff(i));
        }
        proof {
            assert(vals@ =~= compressed_seq(self.coeffs(), D as int));
        }
        pack_fields(vals.as_slice(), D, ct);
    }

    /// Unpack `D`-bit fields and decompress each to a coefficient.
    pub fn decompress_slice<const D: usize>(&mut self, ct: &[u8])
        requires
            1 <= D <= 11,
            ct@.len() == 32 * D,
        ensures
            forall|i: int|
                0 <= i < 256 ==> #[trigger] final(self).coeffs()[i] as int == decompress_spec(
                    unpacked_field(ct@, D as int, i) as int,
                    D as int,
                ),
            forall|i: int| 0 <= i < 256 ==> 0 <= #[trigger] final(self).coeffs()[i] <= 3328,
    {
        let mut vals: [u16; 256] = [0u16; 256];
        unpack_fields(ct, D, vstd::array::ref_mut_array_unsizing_coercion(&mut vals));
        proof {
            vstd::arithmetic::power2::lemma2_to64();
            if D < 12 {
                vstd::arithmetic::power2::lemma_pow2_strictly_increases(D as nat, 12);
            }
            vstd::bits::lemma_u16_shl_is_mul(1u16, D as u16);
        }
        for i in 0..256
            invariant
                1 <= D <= 11,
                vals@.len() == 256,
                self.coeffs().len() == 256,
                forall|k: int| 0 <= k < 256 ==> #[trigger] vals@[k] == unpacked_field(ct@, D as int, k),
                forall|k: int| 0 <= k < 256 ==> (#[trigger] vals@[k] as int) < pow2(D as nat),
                forall|k: int|
                    0 <= k < i ==> #[trigger] self.coeffs()[k] as int == decompress_spec(
                        unpacked_field(ct@, D as int, k) as int,
                        D as int,
                    ),
                forall|k: int| 0 <= k < i ==> 0 <= #[trigger] self.coeffs()[k] <= 3328,
        {
            self.c[i] = decompress_d::<D>(vals[i]);
        }
    }
}


/// The centered binomial coefficient of parameter 2 drawn from bits
/// `4k .. 4k+4` of the byte stream.
pub open spec fn cbd2_coeff(b: Seq<u8>, k: int) -> int
    recommends
        0 <= k,
        4 * k + 4 <= 8 * b.len(),
{
    (bit_of(b, 4 * k) + bit_of(b, 4 * k + 1)) - (bit_of(b, 4 * k + 2) + bit_of(b, 4 * k + 3))
}

/// The centered binomial coefficient of parameter 3 drawn from bits
/// `6k .. 6k+6` of the byte stream.
pub open spec fn cbd3_coeff(b: Seq<u8>, k: int) -> int
    recommends
        0 <= k,
        6 * k + 6 <= 8 * b.len(),
{
    (bit_of(b, 6 * k) + bit_of(b, 6 * k + 1) + bit_of(b, 6 * k + 2)) - (bit_of(b, 6 * k + 3)
        + bit_of(b, 6 * k + 4) + bit_of(b, 6 * k + 5))
}

/// One rejection step: append `v` when it is below q and the polynomial
/// still has room.
pub open spec fn rej_step(c: Seq<i16>, ctr: int, v: int) -> (Seq<i16>, int) {
    if ctr < 256 && v < 3329 {
        (c.update(ctr, v as i16), ctr + 1)
    } else {
        (c, ctr)
    }
}

/// The first 12-bit candidate of the 3-byte group at `pos`.
pub open spec fn rej_cand0(b: Seq<u8>, pos: int) -> u16 {
    (b[pos] as u16) | (((b[pos + 1] as u16) << 8u16) & 0xFFF)
}

/// The second 12-bit candidate of the 3-byte group at `pos`.
pub open spec fn rej_cand1(b: Seq<u8>, pos: int) -> u16 {
    ((b[pos + 1] >> 4u8) as u16) | (((b[pos + 2] as u16) << 4u16) & 0xFFF)
}

/// The polynomial and counter after rejection sampling the first `n`
/// 3-byte groups of one XOF block, in order.
pub open spec fn rej_block_spec(c: Seq<i16>, ctr: int, bytes: Seq<u8>, n: int) -> (Seq<i16>, int)
    decreases n,
{
    if n <= 0 {
        (c, ctr)
    } else {
        let prev = rej_block_spec(c, ctr, bytes, n - 1);
        let pos = 3 * (n - 1);
        let mid = rej_step(prev.0, prev.1, rej_cand0(bytes, pos) as int);
        rej_step(mid.0, mid.1, rej_cand1(bytes, pos) as int)
    }
}

/// Coefficients `ctr..` zeroed; the defensive fill at the block cap.
pub open spec fn zero_fill_from(c: Seq<i16>, ctr: int) -> Seq<i16> {
    Seq::new(
        256,
        |k: int|
            if ctr <= k {
                0i16
            } else {
                c[k]
            },
    )
}

/// The polynomial and sponge state after the uniform sampling loop:
/// blocks are squeezed and rejection-sampled until the polynomial fills
/// or the block cap is reached, and any missing coefficients are zero.
pub open spec fn uniform_loop_spec(c: Seq<i16>, ctr: int, s: Seq<u64>, rounds: int) -> (
    Seq<i16>,
    Seq<u64>,
)
    decreases 512 - rounds,
{
    if ctr >= 256 || rounds >= 512 {
        (zero_fill_from(c, ctr), s)
    } else {
        let block = crate::keccak::squeeze_out(s, 168, 21);
        let s2 = crate::keccak::squeeze_state(s, 168, 21);
        let st = rej_block_spec(c, ctr, block, 56);
        uniform_loop_spec(st.0, st.1, s2, rounds + 1)
    }
}

fn stream_bit_at(bytes: &[u8], i: usize) -> (r: u8)
    requires
        i < 8 * bytes@.len(),
        bytes@.len() <= 4096,
    ensures
        r == bit_of(bytes@, i as int),
        r <= 1,
{
    let tb: u8 = bytes[i / 8];
    let sh: u8 = (i % 8) as u8;
    proof {
        assert(((tb >> sh) & 1) <= 1) by (bit_vector);
    }
    (tb >> sh) & 1
}

impl KyberPoly {
    /// Sample the polynomial from `eta = 2` centered binomial noise:
    /// each coefficient is the difference of two 2-bit weights.
    pub fn cbd2(&mut self, buf: &[u8])
        requires
            buf@.len() == 128,
        ensures
            forall|k: int|
                0 <= k < 256 ==> #[trigger] final(self).coeffs()[k] as int == cbd2_coeff(buf@, k),
            final(self).bounded(2),
    {
        for k in 0..256
            invariant
                buf@.len() == 128,
                self.coeffs().len() == 256,
                forall|j: int|
                    0 <= j < k ==> #[trigger] self.coeffs()[j] as int == cbd2_coeff(buf@, j),
                forall|j: int| 0 <= j < k ==> -2 <= #[trigger] self.coeffs()[j] <= 2,
        {
            let a0 = stream_bit_at(buf, 4 * k);
            let a1 = stream_bit_at(buf, 4 * k + 1);
            let b0 = stream_bit_at(buf, 4 * k + 2);
            let b1 = stream_bit_at(buf, 4 * k + 3);
            self.c[k] = (a0 as i16 + a1 as i16) - (b0 as i16 + b1 as i16);
        }
    }

    /// Sample the polynomial from `eta = 3` centered binomial noise:
    /// each coefficient is the difference of two 3-bit weights.
    pub fn cbd3(&mut self, buf: &[u8])
        requires
            buf@.len() == 192,
        ensures
            forall|k: int|
                0 <= k < 256 ==> #[trigger] final(self).coeffs()[k] as int == cbd3_coeff(buf@, k),
            final(self).bounded(3),
    {
        for k in 0..256
            invariant
                buf@.len() == 192,
                self.coeffs().len() == 256,
                forall|j: int|
                    0 <= j < k ==> #[trigger] self.coeffs()[j] as int == cbd3_coeff(buf@, j),
                forall|j: int| 0 <= j < k ==> -3 <= #[trigger] self.coeffs()[j] <= 3,
        {
            let a0 = stream_bit_at(buf, 6 * k);
            let a1 = stream_bit_at(buf, 6 * k + 1);
            let a2 = stream_bit_at(buf, 6 * k + 2);
            let b0 = stream_bit_at(buf, 6 * k + 3);
            let b1 = stream_bit_at(buf, 6 * k + 4);
            let b2 = stream_bit_at(buf, 6 * k + 5);
            self.c[k] = (a0 as i16 + a1 as i16 + a2 as i16) - (b0 as i16 + b1 as i16 + b2 as i16);
        }
    }

    /// Draw the `eta = 2` noise polynomial from the PRF stream for
    /// `seed` and `nonce`.
    pub fn getnoise_eta2(&mut self, prf: &mut Shake256, seed: &[u8], nonce: u8)
        requires
            old(prf).wf(),
            seed@.len() == 32,
        ensures
            forall|k: int|
                0 <= k < 256 ==> #[trigger] final(self).coeffs()[k] as int == cbd2_coeff(
                    shake256_spec(seed@ + seq![nonce], 128),
                    k,
                ),
            final(self).bounded(3),
            final(prf).wf(),
    {
        prf.absorb_prf(seed, nonce);
        let mut buf = [0u8; 128];
        prf.squeeze(vstd::array::ref_mut_array_unsizing_coercion(&mut buf));
        self.cbd2(buf.as_slice());
    }

    /// Draw the `eta1` noise polynomial: centered binomial with
    /// parameter 3 for `K = 2` and parameter 2 otherwise.
    pub fn getnoise_eta1<const K: usize>(&mut self, prf: &mut Shake256, seed: &[u8], nonce: u8)
        requires
            old(prf).wf(),
            seed@.len() == 32,
            K == 2 || K == 3 || K == 4,
        ensures
            K == 2 ==> forall|k: int|
                0 <= k < 256 ==> #[trigger] final(self).coeffs()[k] as int == cbd3_coeff(
                    shake256_spec(seed@ + seq![nonce], 192),
                    k,
                ),
            K != 2 ==> forall|k: int|
                0 <= k < 256 ==> #[trigger] final(self).coeffs()[k] as int == cbd2_coeff(
                    shake256_spec(seed@ + seq![nonce], 128),
                    k,
                ),
            final(self).bounded(3),
            final(prf).wf(),
    {
        if K == 2 {
            prf.absorb_prf(seed, nonce);
            let mut buf = [0u8; 192];
            prf.squeeze(vstd::array::ref_mut_array_unsizing_coercion(&mut buf));
            self.cbd3(buf.as_slice());
        } else {
            self.getnoise_eta2(prf, seed, nonce);
        }
    }

    /// Fill coefficients starting at `ctr` by rejection sampling two
    /// 12-bit candidates from every three bytes of XOF output: the
    /// result is exactly the in-order acceptance of the block's
    /// candidates, `rej_block_spec`.
    pub fn rej_uniform(&mut self, ctr: usize, bytes: &[u8]) -> (r: usize)
        requires
            ctr <= 256,
            bytes@.len() == 168,
        ensures
            final(self).coeffs() == rej_block_spec(old(self).coeffs(), ctr as int, bytes@, 56).0,
            r as int == rej_block_spec(old(self).coeffs(), ctr as int, bytes@, 56).1,
            ctr <= r <= 256,
            forall|k: int|
                ctr <= k < r ==> 0 <= #[trigger] final(self).coeffs()[k] <= 3328,
            forall|k: int|
                (0 <= k < ctr || r <= k < 256) ==> #[trigger] final(self).coeffs()[k] == old(
                    self,
                ).coeffs()[k],
    {
        let ghost s0 = self.coeffs();
        let mut cur = ctr;
        for chunk in 0..56
            invariant
                bytes@.len() == 168,
                self.coeffs().len() == 256,
                s0.len() == 256,
                ctr <= cur <= 256,
                (self.coeffs(), cur as int) == rej_block_spec(s0, ctr as int, bytes@, chunk as int),
                forall|k: int| ctr <= k < cur ==> 0 <= #[trigger] self.coeffs()[k] <= 3328,
                forall|k: int|
                    (0 <= k < ctr || cur <= k < 256) ==> #[trigger] self.coeffs()[k] == s0[k],
        {
            let pos = 3 * chunk;
            let val0: u16 = (bytes[pos] as u16) | (((bytes[pos + 1] as u16) << 8u16) & 0xFFF);
            proof {
                let b0 = bytes@[pos as int];
                let b1 = bytes@[pos as int + 1];
                assert(((b0 as u16) | (((b1 as u16) << 8u16) & 0xFFF)) < 4096) by (bit_vector);
            }
            if cur < 256 && val0 < 3329 {
                self.c[cur] = val0 as i16;
                cur = cur + 1;
            }
            let val1: u16 = ((bytes[pos + 1] >> 4u8) as u16) | (((bytes[pos + 2] as u16) << 4u16)
                & 0xFFF);
            proof {
                let b1 = bytes@[pos as int + 1];
                let b2 = bytes@[pos as int + 2];
                assert((((b1 >> 4u8) as u16) | (((b2 as u16) << 4u16) & 0xFFF)) < 4096)
                    by (bit_vector);
            }
            if cur < 256 && val1 < 3329 {
                self.c[cur] = val1 as i16;
                cur = cur + 1;
            }
        }
        cur
    }

    /// Expand the polynomial from the SHAKE128 stream for `seed` with
    /// matrix-position nonces `i` and `j`, by rejection sampling.
    /// Output blocks are drawn until the polynomial is filled; the
    /// rejection rate makes the generous block cap unreachable in
    /// practice, and any coefficients still missing at the cap are zero.
    pub fn uniform(&mut self, seed: &[u8], i: u8, j: u8)
        requires
            seed@.len() == 32,
        ensures
            final(self).coeffs() == uniform_loop_spec(
                old(self).coeffs(),
                0,
                crate::keccak::absorb_spec(seed@ + seq![i, j], 21, 0x1f),
                0,
            ).0,
            forall|k: int| 0 <= k < 256 ==> 0 <= #[trigger] final(self).coeffs()[k] <= 3328,
    {
        let mut xof = Shake128::new();
        xof.absorb_xof_with_nonces(seed, i, j);
        self.uniform_from_xof(&mut xof);
    }

    /// Rejection-sample the polynomial from an already absorbed XOF:
    /// exactly the in-order accepted candidates of its output stream,
    /// with the defensive zero fill at the block cap.
    pub fn uniform_from_xof(&mut self, xof: &mut Shake128)
        requires
            old(xof).wf(),
            old(xof).is_dirty(),
        ensures
            final(self).coeffs() == uniform_loop_spec(
                old(self).coeffs(),
                0,
                old(xof).state(),
                0,
            ).0,
            final(xof).state() == uniform_loop_spec(old(self).coeffs(), 0, old(xof).state(), 0).1,
            forall|k: int| 0 <= k < 256 ==> 0 <= #[trigger] final(self).coeffs()[k] <= 3328,
            final(xof).wf(),
            final(xof).is_dirty(),
    {
        let ghost goal = uniform_loop_spec(old(self).coeffs(), 0, old(xof).state(), 0);
        let mut ctr: usize = 0;
        let mut rounds: usize = 0;
        while ctr < 256 && rounds < 512
            invariant
                ctr <= 256,
                rounds <= 512,
                self.coeffs().len() == 256,
                xof.wf(),
                xof.is_dirty(),
                uniform_loop_spec(self.coeffs(), ctr as int, xof.state(), rounds as int) == goal,
                forall|k: int| 0 <= k < ctr ==> 0 <= #[trigger] self.coeffs()[k] <= 3328,
            decreases 512 - rounds,
        {
            let block = xof.squeezed_block();
            ctr = self.rej_uniform(ctr, block.as_slice());
            rounds = rounds + 1;
        }
        let ghost pre_fill = self.coeffs();
        if ctr < 256 {
            for k in ctr..256
                invariant
                    ctr <= k,
                    self.coeffs().len() == 256,
                    pre_fill.len() == 256,
                    forall|t: int| 0 <= t < ctr ==> #[trigger] self.coeffs()[t] == pre_fill[t],
                    forall|t: int| ctr <= t < k ==> #[trigger] self.coeffs()[t] == 0i16,
                    forall|t: int| k <= t < 256 ==> #[trigger] self.coeffs()[t] == pre_fill[t],
                    forall|t: int| 0 <= t < k ==> 0 <= #[trigger] self.coeffs()[t] <= 3328,
            {
                self.c[k] = 0;
            }
        }
        proof {
            assert(self.coeffs() =~= zero_fill_from(pre_fill, ctr as int));
        }
    }

    /// Encode a 32-byte message: bit `k` selects `(q + 1) / 2` or zero
    /// for coefficient `k`.
    pub fn set_from_message(&mut self, msg: &[u8])
        requires
            msg@.len() == 32,
        ensures
            forall|k: int|
                0 <= k < 256 ==> #[trigger] final(self).coeffs()[k] == 1665 * bit_of(msg@, k),
            final(self).bounded(1665),
    {
        for k in 0..256
            invariant
                msg@.len() == 32,
                self.coeffs().len() == 256,
                forall|j: int|
                    0 <= j < k ==> #[trigger] self.coeffs()[j] == 1665 * bit_of(msg@, j),
                forall|j: int| 0 <= j < k ==> 0 <= #[trigger] self.coeffs()[j] <= 1665,
        {
            let bit = stream_bit_at(msg, k);
            let mask: i16 = 0i16.wrapping_sub(bit as i16);
            proof {
                assert(mask & 1665 == (if bit == 1 {
                    1665i16
                } else {
                    0i16
                })) by (bit_vector)
                    requires
                        bit <= 1,
                        mask == (0i16).wrapping_sub(bit as i16),
                ;
            }
            self.c[k] = mask & 1665;
        }
    }

    /// The polynomial encoding a 32-byte message.
    pub fn from_message(msg: &[u8]) -> (r: KyberPoly)
        requires
            msg@.len() == 32,
        ensures
            forall|k: int| 0 <= k < 256 ==> #[trigger] r.coeffs()[k] == 1665 * bit_of(msg@, k),
            r.bounded(1665),
    {
        let mut p = KyberPoly::new();
        p.set_from_message(msg);
        p
    }

    /// Decode the message: each coefficient is reduced and compressed
    /// to its nearest bit, and the 256 bits are packed into 32 bytes.
    pub fn into_message(&self, msg: &mut [u8])
        requires
            old(msg)@.len() == 32,
        ensures
            final(msg)@ == pack_spec(message_bits(self.coeffs()), 1, 32),
            final(msg)@.len() == 32,
    {
        let mut vals: [u16; 256] = [0u16; 256];
        for k in 0..256
            invariant
                self.coeffs().len() == 256,
                vals@.len() == 256,
                forall|j: int| 0 <= j < k ==> #[trigger] vals@[j] == message_bits(self.coeffs())[j],
        {
            let red = barrett_reduce(self.coeff(k));
            vals[k] = compress_d::<1>(red);
            proof {
                crate::fq_kyber::lemma_canon_of_congruent(red as int, self.coeffs()[k as int] as int);
            }
        }
        proof {
            assert(vals@ =~= message_bits(self.coeffs()));
        }
        pack_fields(vals.as_slice(), 1, msg);
    }
}

/// A deserialized 12-bit coefficient, as the signed type stores it.
pub open spec fn unpacked_field_i16(b: Seq<u8>, i: int) -> i16 {
    unpacked_field(b, 12, i) as i16
}

/// The decoded message bits: each coefficient compressed to one bit on
/// its canonical representative.
pub open spec fn message_bits(s: Seq<i16>) -> Seq<u16> {
    Seq::new(s.len(), |k: int| compress_spec((s[k] as int) % 3329, 1) as u16)
}


/// Serialization round trip: deserializing the 12-bit serialization of a
/// polynomial with canonical coefficients yields those coefficients
/// unchanged.
pub proof fn lemma_serialize_round_trip(s: Seq<i16>)
    requires
        s.len() == 256,
        forall|i: int| 0 <= i < 256 ==> 0 <= #[trigger] s[i] < 3329,
    ensures
        forall|i: int|
            0 <= i < 256 ==> #[trigger] unpacked_field_i16(pack_spec(canon_u16(s), 12, 384), i)
                == s[i],
{
    let vals = canon_u16(s);
    assert forall|j: int| 0 <= j < 256 implies (#[trigger] vals[j]) < (1u16 << 12u16) by {
        vstd::arithmetic::div_mod::lemma_small_mod(s[j] as nat, 3329);
        assert((1u16 << 12u16) == 4096) by (bit_vector);
    }
    crate::codec::lemma_pack_unpack_round_trip(vals, 12, 384);
    assert forall|i: int| 0 <= i < 256 implies #[trigger] unpacked_field_i16(
        pack_spec(canon_u16(s), 12, 384),
        i,
    ) == s[i] by {
        vstd::arithmetic::div_mod::lemma_small_mod(s[i] as nat, 3329);
        assert(crate::codec::unpack_spec(pack_spec(vals, 12, 384), 12, 256)[i] == vals[i]);
    }
}

/// The worst rounding error of `d`-bit compression: `ceil(q / 2^(d+1))`.
pub open spec fn compress_error_bound(d: int) -> int {
    if d == 4 {
        105
    } else if d == 5 {
        53
    } else if d == 10 {
        2
    } else {
        1
    }
}

proof fn lemma_compress_err_4(x: u16)
    by (bit_vector)
    requires
        x < 3329,
    ensures
        (((((x * 16 + 1664) / 3329) % 16) * 3329 + 8) / 16 + 3329 - x) % 3329 <= 105 || (((((x
            * 16 + 1664) / 3329) % 16) * 3329 + 8) / 16 + 3329 - x) % 3329 >= 3329 - 105,
{
}

proof fn lemma_compress_err_5(x: u16)
    by (bit_vector)
    requires
        x < 3329,
    ensures
        (((((x * 32 + 1664) / 3329) % 32) * 3329 + 16) / 32 + 3329 - x) % 3329 <= 53 || (((((x * 32
            + 1664) / 3329) % 32) * 3329 + 16) / 32 + 3329 - x) % 3329 >= 3329 - 53,
{
}

proof fn lemma_compress_err_10(x: u16)
    by (bit_vector)
    requires
        x < 3329,
    ensures
        (((((x * 1024 + 1664) / 3329) % 1024) * 3329 + 512) / 1024 + 3329 - x) % 3329 <= 2 || (((((
        x * 1024 + 1664) / 3329) % 1024) * 3329 + 512) / 1024 + 3329 - x) % 3329 >= 3329 - 2,
{
}

proof fn lemma_compress_err_11(x: u16)
    by (bit_vector)
    requires
        x < 3329,
    ensures
        (((((x * 2048 + 1664) / 3329) % 2048) * 3329 + 1024) / 2048 + 3329 - x) % 3329 <= 1 || (((((
        x * 2048 + 1664) / 3329) % 2048) * 3329 + 1024) / 2048 + 3329 - x) % 3329 >= 3329 - 1,
{
}

/// Compression error bound: decompressing the compression of a canonical
/// coefficient lands within `ceil(q / 2^(d+1))` of it, as a distance
/// modulo q, for every supported width.
pub proof fn lemma_compress_decompress_error(x: int, d: int)
    requires
        0 <= x < 3329,
        d == 4 || d == 5 || d == 10 || d == 11,
    ensures
        ({
            let y = decompress_spec(compress_spec(x, d), d);
            (y - x) % 3329 <= compress_error_bound(d) || (y - x) % 3329 >= 3329
                - compress_error_bound(d)
        }),
{
    vstd::arithmetic::power2::lemma2_to64();
    let xv = x as u16;
    let y = decompress_spec(compress_spec(x, d), d);
    if d == 4 {
        lemma_compress_err_4(xv);
    } else if d == 5 {
        lemma_compress_err_5(xv);
    } else if d == 10 {
        lemma_compress_err_10(xv);
    } else {
        lemma_compress_err_11(xv);
    }
    vstd::arithmetic::div_mod::lemma_mod_multiples_vanish(1, y - x, 3329);
}

} // verus!
