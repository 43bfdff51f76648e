//! Scalar arithmetic modulo the Dilithium prime q = 8380417: signed
//! Montgomery multiplication over 64-bit products, the two-step clamp
//! reduction, and the single-coefficient field element.

use crate::modular::{cong, lemma_cong_multiple};
use vstd::prelude::*;

verus! {

/// The Dilithium modulus, `2^23 - 2^13 + 1`.
pub const DILITHIUM_Q: i32 = 8380417;

/// 2^32 mod q as a signed representative.
pub const DILITHIUM_MONT: i32 = -4186625;

/// q^-1 mod 2^32.
pub const DILITHIUM_QINV: i32 = 58728449;

pub open spec fn dq() -> int {
    8380417
}

/// The exact value of the signed Montgomery reduction of `a`: with
/// `t = a * q^-1 mod^+- 2^32`, the quotient `(a - t*q) / 2^32`.
pub open spec fn dmont_red(a: int) -> int {
    (a - (((((a as i32) as i64) * 58728449) as i32) as int) * 8380417) / 4294967296
}

/// The exact value of the clamp reduction of `a`.
pub open spec fn reduce32_spec(a: int) -> int {
    a - ((a + 4194304) / 8388608) * 8380417
}

proof fn lemma_reduce32_range(a: i32, u: i32, t: i32)
    by (bit_vector)
    requires
        a <= 2143289343,
        u as int == a + 4194304,
        t == u >> 23,
    ensures
        -6283009 <= (a as int) - (t as int) * 8380417 <= 6283008,
        -256 <= t <= 256,
{
}

/// Clamp reduction: for `a <= 2^31 - 2^22`, a representative of `a` in
/// `[-6283009, 6283008]`.
pub fn reduce32(a: i32) -> (r: i32)
    requires
        a <= 2143289343,
    ensures
        r as int == reduce32_spec(a as int),
        cong(dq(), r as int, a as int),
        -6283009 <= r <= 6283008,
{
    let u: i32 = a + 4194304;
    let t: i32 = u >> 23;
    proof {
        lemma_reduce32_range(a, u, t);
        assert(0 <= u - (u >> 23) * 8388608 < 8388608) by (bit_vector);
        vstd::arithmetic::div_mod::lemma_fundamental_div_mod_converse(
            u as int,
            8388608,
            t as int,
            u - t * 8388608,
        );
    }
    let r: i32 = a - t * 8380417;
    proof {
        lemma_cong_multiple(dq(), -(t as int));
        assert(-(t as int) * dq() == r - a);
    }
    r
}

#[verifier::rlimit(100)]
proof fn lemma_dilithium_mont_divisible(a: i64, lo: i32, t: i32)
    by (bit_vector)
    requires
        lo == a as i32,
        t == ((lo as i64) * 58728449) as i32,
    ensures
        (a - (t as i64) * 8380417) % 4294967296 == 0,
{
}

proof fn lemma_shr32_exact(d: i64)
    by (bit_vector)
    requires
        d % 4294967296 == 0,
    ensures
        ((d >> 32) as int) * 4294967296 == d as int,
        -2147483648 <= (d >> 32) <= 2147483647,
{
}

/// Signed Montgomery reduction: maps `a` to `r` with
/// `r * 2^32 == a (mod q)`, where `r` differs from `a / 2^32` by at
/// most `q/2`.
pub fn dilithium_montgomery_reduce(a: i64) -> (r: i32)
    requires
        -17996806323830784 <= a <= 17996806323830784,
    ensures
        r as int == dmont_red(a as int),
        cong(dq(), 4294967296 * r, a as int),
        a - 2147483647 * 8380417 <= 4294967296 * r <= a + 2147483648 * 8380417,
{
    let lo: i32 = #[verifier::truncate] (a as i32);
    proof {
        assert(-58728449 * 2147483648 <= (lo as int) * 58728449 <= 58728449 * 2147483648)
            by (nonlinear_arith)
            requires
                -2147483648 <= lo <= 2147483647,
        ;
    }
    let t: i32 = #[verifier::truncate] (((lo as i64) * 58728449) as i32);
    proof {
        assert(-8380417 * 2147483648 <= (t as int) * 8380417 <= 8380417 * 2147483648)
            by (nonlinear_arith)
            requires
                -2147483648 <= t <= 2147483647,
        ;
    }
    let d: i64 = a - (t as i64) * 8380417;
    proof {
        lemma_dilithium_mont_divisible(a, lo, t);
    }
    let r64: i64 = d >> 32;
    proof {
        lemma_shr32_exact(d);
        lemma_cong_multiple(dq(), -(t as int));
        assert(-(t as int) * dq() == 4294967296 * (r64 as int) - a);
        vstd::arithmetic::div_mod::lemma_fundamental_div_mod(d as int, 4294967296);
    }
    r64 as i32
}

/// Montgomery product: `r * 2^32 == a * b (mod q)`, with `|r| < q`
/// whenever `|a * b| < 2^31 * q`.
pub fn dilithium_fqmul(a: i32, b: i32) -> (r: i32)
    requires
        -17996806323830784 <= a * b <= 17996806323830784,
    ensures
        r as int == dmont_red(a * b),
        cong(dq(), 4294967296 * r, a * b),
        a * b - 2147483647 * 8380417 <= 4294967296 * r <= a * b + 2147483648 * 8380417,
        -2147483648 * 8380417 < a * b < 2147483648 * 8380417 ==> -8380417 < r < 8380417,
{
    proof {
        assert((a as int) * (b as int) == ((a as i64) as int) * ((b as i64) as int));
    }
    dilithium_montgomery_reduce((a as i64) * (b as i64))
}

proof fn lemma_dilithium_caddq_mask(x: i32)
    by (bit_vector)
    ensures
        ((x >> 31) & 8380417) == if x < 0 {
            8380417i32
        } else {
            0i32
        },
{
}

/// Adds q exactly when the input is negative; on `(-q, q)` this yields
/// the canonical representative.
pub fn dilithium_caddq(x: i32) -> (r: i32)
    requires
        x <= 2139103230,
    ensures
        r == if x < 0 {
            x + 8380417
        } else {
            x as int
        },
        cong(dq(), r as int, x as int),
        -8380417 < x < 8380417 ==> r == (x as int) % dq(),
{
    let m: i32 = (x >> 31) & DILITHIUM_Q;
    proof {
        lemma_dilithium_caddq_mask(x);
        lemma_cong_multiple(dq(), if x < 0 { -1int } else { 0int });
        if -8380417 < x < 8380417 {
            if x < 0 {
                assert((x as int) % 8380417 == x + 8380417) by (nonlinear_arith)
                    requires
                        -8380417 < x < 0,
                ;
            } else {
                assert((x as int) % 8380417 == x as int) by (nonlinear_arith)
                    requires
                        0 <= x < 8380417,
                ;
            }
        }
    }
    x + m
}

/// Canonical representative `a mod q` in `[0, q)`.
pub fn freeze(a: i32) -> (r: i32)
    requires
        a <= 2143289343,
    ensures
        r == (a as int) % dq(),
        r == if reduce32_spec(a as int) < 0 {
            reduce32_spec(a as int) + 8380417
        } else {
            reduce32_spec(a as int)
        },
        0 <= r < 8380417,
{
    let red = reduce32(a);
    let r = dilithium_caddq(red);
    proof {
        crate::modular::lemma_cong_trans(dq(), r as int, red as int, a as int);
        vstd::arithmetic::div_mod::lemma_mod_equivalence(r as int, a as int, dq());
        vstd::arithmetic::div_mod::lemma_small_mod(r as nat, dq() as nat);
    }
    r
}

/// One coefficient of a Dilithium polynomial.
#[derive(Clone, Copy, Debug, PartialEq, Eq)]
pub struct DilithiumFq(pub i32);

impl DilithiumFq {
    /// Componentwise clamp reduction to `(-q, q)` range.
    pub fn reduce(&self) -> (r: DilithiumFq)
        requires
            self.0 <= 2143289343,
        ensures
            cong(dq(), r.0 as int, self.0 as int),
            -6283009 <= r.0 <= 6283008,
    {
        DilithiumFq(reduce32(self.0))
    }

    /// Canonical representative of the coefficient.
    pub fn freeze(&self) -> (r: DilithiumFq)
        requires
            self.0 <= 2143289343,
        ensures
            r.0 == (self.0 as int) % dq(),
            0 <= r.0 < 8380417,
    {
        DilithiumFq(freeze(self.0))
    }
}

} // verus!
