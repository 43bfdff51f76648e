//! Scalar arithmetic modulo the Kyber prime q = 3329: signed Montgomery
//! multiplication, Barrett reduction, the conditional add of q, and the
//! two-coefficient field element used by the degree-2 NTT base case.

use crate::modular::{
    cong, lemma_cong_add, lemma_cong_multiple, lemma_cong_scale, lemma_cong_sub, lemma_cong_trans,
};
use vstd::prelude::*;

verus! {

/// The Kyber modulus.
pub const KYBER_Q: i16 = 3329;

/// 2^16 mod q, the Montgomery factor, as a signed representative.
pub const MONT: i16 = -1044;

/// MONT^2 mod q; multiplying by it through `fqmul` moves a value into the
/// Montgomery domain.
pub const MONT_SQUARED: i16 = 1353;

/// q^-1 mod 2^16 as a signed representative.
pub const QINV: i16 = -3327;

/// Rounded reciprocal 2^26 / q used by the Barrett reduction.
pub const BARRETT_V: i16 = 20159;

pub open spec fn q() -> int {
    3329
}

/// The canonical representative of `a` in `[0, q)`.
pub open spec fn canon(a: int) -> int {
    a % q()
}

/// The exact value of the signed Montgomery reduction of `a`: with
/// `t = a * q^-1 mod^+- 2^16`, the quotient `(a - t*q) / 2^16`.
pub open spec fn mont_red(a: int) -> int {
    (a - (((((a as i16) as i32) * -3327) as i16) as int) * 3329) / 65536
}

/// The exact value of the Barrett reduction of `a`.
pub open spec fn barrett_spec(a: int) -> int {
    a - ((20159 * a + 33554432) / 67108864) * 3329
}

/// The exact value of the conditional add of q.
pub open spec fn caddq_spec(x: int) -> int {
    if x < 0 {
        x + 3329
    } else {
        x
    }
}

proof fn lemma_mont_divisible(a: i32, lo: i16, t: i16)
    by (bit_vector)
    requires
        lo == a as i16,
        t == ((lo as i32) * (-3327)) as i16,
    ensures
        (a - (t as i32) * 3329) % 65536 == 0,
{
}

proof fn lemma_shr16_exact(d: i32)
    by (bit_vector)
    requires
        d % 65536 == 0,
    ensures
        ((d >> 16) as int) * 65536 == d as int,
        -32768 <= (d >> 16) <= 32767,
{
}

/// Signed Montgomery reduction: returns exactly `mont_red(a)`, a value
/// `r` with `r * 2^16 == a (mod q)` that differs from `a / 2^16` by at
/// most `q/2`.
pub fn montgomery_reduce(a: i32) -> (r: i16)
    requires
        -1879048192 <= a <= 1879048192,
    ensures
        r as int == mont_red(a as int),
        cong(q(), 65536 * r, a as int),
        a - 32767 * 3329 <= 65536 * r <= a + 32768 * 3329,
{
    let lo: i16 = #[verifier::truncate] (a as i16);
    proof {
        assert(-3327 * 32768 <= (lo as int) * -3327 <= 3327 * 32768) by (nonlinear_arith)
            requires
                -32768 <= lo <= 32767,
        ;
    }
    let t: i16 = #[verifier::truncate] (((lo as i32) * -3327) as i16);
    let d: i32 = a - (t as i32) * 3329;
    proof {
        lemma_mont_divisible(a, lo, t);
    }
    let r32: i32 = d >> 16;
    proof {
        lemma_shr16_exact(d);
        lemma_cong_multiple(q(), -(t as int));
        assert(-(t as int) * q() == 65536 * r32 - a);
        vstd::arithmetic::div_mod::lemma_fundamental_div_mod(d as int, 65536);
    }
    r32 as i16
}

/// Montgomery product: returns exactly `mont_red(a * b)`, so
/// `r * 2^16 == a * b (mod q)`, with `|r| < q` whenever
/// `|a * b| < 2^15 * q`.
pub fn fqmul(a: i16, b: i16) -> (r: i16)
    ensures
        r as int == mont_red(a * b),
        cong(q(), 65536 * r, a * b),
        a * b - 32767 * 3329 <= 65536 * r <= a * b + 32768 * 3329,
        -32768 * 3329 < a * b < 32768 * 3329 ==> -3329 < r < 3329,
{
    proof {
        assert((a as int) * (b as int) == (a as i32) * (b as i32) && -1879048192 <= (a as i32)
            * (b as i32) <= 1879048192) by (nonlinear_arith);
    }
    montgomery_reduce((a as i32) * (b as i32))
}

proof fn lemma_barrett_range(a: i16, u: i32, t: i32)
    by (bit_vector)
    requires
        u as int == 20159 * (a as int) + 33554432,
        t == u >> 26,
    ensures
        -1664 <= (a as int) - (t as int) * 3329 <= 1664,
        -10 <= t <= 10,
{
}

/// Barrett reduction: returns exactly `barrett_spec(a)`, the
/// representative of `a` in `[-(q-1)/2, (q-1)/2]`.
pub fn barrett_reduce(a: i16) -> (r: i16)
    ensures
        r as int == barrett_spec(a as int),
        cong(q(), r as int, a as int),
        -1664 <= r <= 1664,
{
    let u: i32 = 20159 * (a as i32) + 33554432;
    let t: i32 = u >> 26;
    proof {
        lemma_barrett_range(a, u, t);
        assert(0 <= u - (u >> 26) * 67108864 < 67108864) by (bit_vector);
        vstd::arithmetic::div_mod::lemma_fundamental_div_mod(u as int, 67108864);
        vstd::arithmetic::div_mod::lemma_fundamental_div_mod_converse(
            u as int,
            67108864,
            t as int,
            u - t * 67108864,
        );
    }
    let r32: i32 = a as i32 - t * 3329;
    proof {
        lemma_cong_multiple(q(), -(t as int));
        assert(-(t as int) * q() == r32 - a);
    }
    r32 as i16
}

proof fn lemma_caddq_mask(x: i16)
    by (bit_vector)
    ensures
        ((x >> 15) & 3329) == if x < 0 {
            3329i16
        } else {
            0i16
        },
{
}

/// Adds q exactly when the input is negative; on `(-q, q)` this yields the
/// canonical representative.
pub fn caddq(x: i16) -> (r: i16)
    ensures
        r == caddq_spec(x as int),
        r == if x < 0 {
            x + 3329
        } else {
            x as int
        },
        cong(q(), r as int, x as int),
        -3329 < x < 3329 ==> r == canon(x as int),
{
    let m: i16 = (x >> 15) & KYBER_Q;
    proof {
        lemma_caddq_mask(x);
        lemma_cong_multiple(q(), if x < 0 { -1int } else { 0int });
        if -3329 < x < 3329 {
            if x < 0 {
                assert((x as int) % 3329 == x + 3329) by (nonlinear_arith)
                    requires
                        -3329 < x < 0,
                ;
            } else {
                assert((x as int) % 3329 == x as int) by (nonlinear_arith)
                    requires
                        0 <= x < 3329,
                ;
            }
        }
    }
    x + m
}

/// The exact first component of the base-case product: the twiddled
/// Karatsuba combination, each product through one Montgomery reduction.
pub open spec fn basemul0_spec(a0: i16, a1: i16, b0: i16, b1: i16, zeta: i16) -> int {
    mont_red((zeta as int) * mont_red(a1 * b1)) + mont_red(a0 * b0)
}

/// The exact second component of the base-case product.
pub open spec fn basemul1_spec(a0: i16, a1: i16, b0: i16, b1: i16) -> int {
    mont_red((a1 + a0) * (b1 + b0)) - mont_red(a1 * b1) - mont_red(a0 * b0)
}

/// Congruent values share their canonical representative.
pub proof fn lemma_canon_of_congruent(a: int, b: int)
    requires
        cong(q(), a, b),
    ensures
        canon(a) == canon(b),
{
    vstd::arithmetic::div_mod::lemma_mod_equivalence(a, b, q());
}

/// A pair of adjacent polynomial coefficients: one element of the quadratic
/// extension factors that the Kyber NTT bottoms out in.
#[derive(Clone, Copy, Debug, PartialEq, Eq)]
pub struct KyberFq(pub [i16; 2]);

impl KyberFq {
    /// Both residues mapped to their canonical representatives in `[0, q)`.
    pub fn freeze(&self) -> (r: KyberFq)
        requires
            -3329 < self.0[0] < 3329,
            -3329 < self.0[1] < 3329,
        ensures
            r.0[0] == canon(self.0[0] as int),
            r.0[1] == canon(self.0[1] as int),
    {
        KyberFq([caddq(self.0[0]), caddq(self.0[1])])
    }

    /// Componentwise Barrett reduction.
    pub fn reduce(&self) -> (r: KyberFq)
        ensures
            cong(q(), r.0[0] as int, self.0[0] as int),
            cong(q(), r.0[1] as int, self.0[1] as int),
            -1664 <= r.0[0] <= 1664,
            -1664 <= r.0[1] <= 1664,
    {
        KyberFq([barrett_reduce(self.0[0]), barrett_reduce(self.0[1])])
    }

    /// Product of `self` and `other` in `Z_q[X] / (X^2 - zeta)`, with every
    /// multiplication picking up one inverse Montgomery factor: writing
    /// `R = 2^16`, the result satisfies
    /// `r0 * R^2 == a0*b0*R + zeta*a1*b1 (mod q)` and
    /// `r1 * R == a0*b1 + a1*b0 (mod q)`.
    pub fn basemul(&self, other: KyberFq, zeta: i16) -> (r: KyberFq)
        requires
            -3329 < zeta < 3329,
            -4096 < self.0[0] < 4096,
            -4096 < self.0[1] < 4096,
            -1665 < other.0[0] < 1665,
            -1665 < other.0[1] < 1665,
        ensures
            r.0[0] == basemul0_spec(self.0[0], self.0[1], other.0[0], other.0[1], zeta),
            r.0[1] == basemul1_spec(self.0[0], self.0[1], other.0[0], other.0[1]),
            cong(
                q(),
                65536 * 65536 * r.0[0],
                65536 * (self.0[0] * other.0[0]) + zeta * (self.0[1] * other.0[1]),
            ),
            cong(q(), 65536 * r.0[1], self.0[0] * other.0[1] + self.0[1] * other.0[0]),
            -5100 < r.0[0] < 5100,
            -6900 < r.0[1] < 6900,
    {
        let a0 = self.0[0];
        let a1 = self.0[1];
        let b0 = other.0[0];
        let b1 = other.0[1];
        proof {
            assert(-4096 * 1665 <= a0 * b0 <= 4096 * 1665 && -4096 * 1665 <= a1 * b1 <= 4096
                * 1665) by (nonlinear_arith)
                requires
                    -4096 < a0 < 4096,
                    -4096 < a1 < 4096,
                    -1665 < b0 < 1665,
                    -1665 < b1 < 1665,
            ;
        }
        let z0 = fqmul(a0, b0);
        let z1 = fqmul(a1, b1);
        proof {
            assert(-3329 * 1770 <= zeta * z1 <= 3329 * 1770) by (nonlinear_arith)
                requires
                    -3329 < zeta < 3329,
                    -1770 <= z1 <= 1770,
            ;
        }
        let zz = fqmul(zeta, z1);
        let r0 = zz + z0;
        proof {
            assert(-8192 * 3330 <= (a1 + a0) * (b1 + b0) <= 8192 * 3330) by (nonlinear_arith)
                requires
                    -8192 < a1 + a0 < 8192,
                    -3330 < b1 + b0 < 3330,
            ;
        }
        let k = fqmul(a1 + a0, b1 + b0);
        let r1 = k - z1 - z0;
        proof {
            // r0 * R^2 == zz * R^2 + z0 * R^2
            //          == zeta * (a1 * b1) + (a0 * b0) * R (mod q)
            lemma_cong_scale(q(), 65536 * zz, (zeta * z1) as int, 65536);
            lemma_cong_scale(q(), 65536 * z1, (a1 * b1) as int, zeta as int);
            assert(65536 * ((zeta * z1) as int) == (zeta as int) * (65536 * z1))
                by (nonlinear_arith);
            lemma_cong_trans(
                q(),
                65536 * (65536 * zz),
                (zeta as int) * (65536 * z1),
                (zeta as int) * ((a1 * b1) as int),
            );
            lemma_cong_scale(q(), 65536 * z0, (a0 * b0) as int, 65536);
            lemma_cong_add(
                q(),
                65536 * (65536 * zz),
                (zeta as int) * ((a1 * b1) as int),
                65536 * (65536 * z0),
                65536 * ((a0 * b0) as int),
            );
            assert(65536 * (65536 * zz) + 65536 * (65536 * z0) == 65536 * 65536 * (r0 as int))
                by (nonlinear_arith)
                requires
                    r0 == zz + z0,
            ;
            // r1 * R == (a1+a0)(b1+b0) - a1*b1 - a0*b0 == a0*b1 + a1*b0 (mod q)
            lemma_cong_sub(
                q(),
                65536 * k,
                ((a1 + a0) * (b1 + b0)) as int,
                65536 * z1,
                (a1 * b1) as int,
            );
            lemma_cong_sub(
                q(),
                65536 * k - 65536 * z1,
                (a1 + a0) * (b1 + b0) - a1 * b1,
                65536 * z0,
                (a0 * b0) as int,
            );
            assert((a1 + a0) * (b1 + b0) - a1 * b1 - a0 * b0 == a0 * b1 + a1 * b0)
                by (nonlinear_arith);
        }
        KyberFq([r0, r1])
    }

    /// Accumulate the base-case product onto `r`; the increments obey
    /// the congruences of `basemul` and stay within its bounds.
    pub fn basemul_acc(&self, other: KyberFq, zeta: i16, r: &mut KyberFq)
        requires
            -3329 < zeta < 3329,
            -4096 < self.0[0] < 4096,
            -4096 < self.0[1] < 4096,
            -1665 < other.0[0] < 1665,
            -1665 < other.0[1] < 1665,
            -25867 <= old(r).0[0] <= 25867,
            -25867 <= old(r).0[1] <= 25867,
        ensures
            final(r).0[0] == old(r).0[0] + basemul0_spec(
                self.0[0],
                self.0[1],
                other.0[0],
                other.0[1],
                zeta,
            ),
            final(r).0[1] == old(r).0[1] + basemul1_spec(
                self.0[0],
                self.0[1],
                other.0[0],
                other.0[1],
            ),
            cong(
                q(),
                65536 * 65536 * (final(r).0[0] - old(r).0[0]),
                65536 * (self.0[0] * other.0[0]) + zeta * (self.0[1] * other.0[1]),
            ),
            cong(
                q(),
                65536 * (final(r).0[1] - old(r).0[1]),
                self.0[0] * other.0[1] + self.0[1] * other.0[0],
            ),
            old(r).0[0] - 5100 < final(r).0[0] < old(r).0[0] + 5100,
            old(r).0[1] - 6900 < final(r).0[1] < old(r).0[1] + 6900,
    {
        let t = self.basemul(other, zeta);
        let r0 = r.0[0] + t.0[0];
        let r1 = r.0[1] + t.0[1];
        *r = KyberFq([r0, r1]);
    }
}

} // verus!
