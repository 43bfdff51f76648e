//! Small shared utilities: word splitting, rounded division, byte-buffer
//! helpers for the codec layers, and a modular inverse by the extended
//! Euclidean algorithm.

use crate::modular::cong;
use vstd::prelude::*;

verus! {

/// A type with a distinguished zero value.
pub trait Zero: Sized {
    spec fn zero_spec() -> Self;

    fn zero() -> (r: Self)
        ensures
            r == Self::zero_spec(),
    ;
}

/// A type with a distinguished one value.
pub trait One: Sized {
    spec fn one_spec() -> Self;

    fn one() -> (r: Self)
        ensures
            r == Self::one_spec(),
    ;
}

impl Zero for i16 {
    open spec fn zero_spec() -> i16 {
        0
    }

    fn zero() -> i16 {
        0
    }
}

impl One for i16 {
    open spec fn one_spec() -> i16 {
        1
    }

    fn one() -> i16 {
        1
    }
}

impl Zero for i32 {
    open spec fn zero_spec() -> i32 {
        0
    }

    fn zero() -> i32 {
        0
    }
}

impl One for i32 {
    open spec fn one_spec() -> i32 {
        1
    }

    fn one() -> i32 {
        1
    }
}

/// The low 32 bits of a 64-bit word.
pub fn low32(x: u64) -> (r: u32)
    ensures
        r == x as u64 % 0x1_0000_0000,
{
    proof {
        assert((x as u64 % 0x1_0000_0000) < 0x1_0000_0000) by (bit_vector);
        assert((x & 0xFFFF_FFFF) == x % 0x1_0000_0000) by (bit_vector);
    }
    (x & 0xFFFF_FFFF) as u32
}

/// The high 32 bits of a 64-bit word.
pub fn high32(x: u64) -> (r: u32)
    ensures
        r == x as u64 / 0x1_0000_0000,
{
    proof {
        assert((x >> 32u64) == x / 0x1_0000_0000 && (x / 0x1_0000_0000) < 0x1_0000_0000)
            by (bit_vector);
    }
    (x >> 32u64) as u32
}

/// `n / x` rounded up.
pub fn ceil_div(n: usize, x: usize) -> (r: usize)
    requires
        x > 0,
        n + x <= usize::MAX,
    ensures
        r == (n + x - 1) as int / x as int,
        r * x >= n,
        (r as int - 1) * x < n,
{
    let r = (n + x - 1) / x;
    proof {
        vstd::arithmetic::div_mod::lemma_fundamental_div_mod((n + x - 1) as int, x as int);
        assert(r * (x as int) >= n && (r as int - 1) * x < n) by (nonlinear_arith)
            requires
                x > 0,
                (n + x - 1) as int == ((n + x - 1) as int / x as int) * x + (n + x - 1) as int % (
                x as int),
                0 <= (n + x - 1) as int % (x as int) < x,
                r == (n + x - 1) as int / x as int,
        ;
    }
    r
}

/// The least multiple of `x` that is at least `n`.
pub fn next_multiple_of(n: usize, x: usize) -> (r: usize)
    requires
        x > 0,
        n + x <= usize::MAX,
    ensures
        r % x == 0,
        r >= n,
        r < n + x,
{
    let d = ceil_div(n, x);
    proof {
        assert(d * x < n + x && (d * x) % (x as int) == 0) by (nonlinear_arith)
            requires
                x > 0,
                (d as int - 1) * x < n,
                d * (x as int) >= n,
        ;
    }
    d * x
}

/// A zero-filled byte vector of length `n`.
pub fn byte_vec(n: usize) -> (r: Vec<u8>)
    ensures
        r@.len() == n,
        forall|i: int| 0 <= i < n ==> r@[i] == 0u8,
{
    let mut v: Vec<u8> = Vec::new();
    for i in 0..n
        invariant
            v@.len() == i,
            forall|k: int| 0 <= k < i ==> v@[k] == 0u8,
    {
        v.push(0u8);
    }
    v
}

/// Overwrite `dst[off .. off + src.len()]` with `src`.
pub fn copy_into_vec(dst: &mut Vec<u8>, off: usize, src: &[u8])
    requires
        off + src@.len() <= old(dst)@.len(),
    ensures
        final(dst)@.len() == old(dst)@.len(),
        forall|i: int|
            off <= i < off + src@.len() ==> final(dst)@[i] == src@[i - off],
        forall|i: int|
            (0 <= i < off || off + src@.len() <= i < old(dst)@.len()) ==> final(dst)@[i] == old(
                dst,
            )@[i],
{
    let n = src.len();
    let dlen = dst.len();
    for i in 0..n
        invariant
            off + n <= dlen,
            dlen == dst@.len(),
            n == src@.len(),
            dst@.len() == old(dst)@.len(),
            forall|k: int| off <= k < off + i ==> dst@[k] == src@[k - off],
            forall|k: int| (0 <= k < off || off + i <= k < dst@.len()) ==> dst@[k] == old(dst)@[k],
    {
        let val = src[i];
        dst[off + i] = val;
    }
}

/// The `len` bytes of `src` starting at `off`, as a fresh vector.
pub fn sub_bytes(src: &[u8], off: usize, len: usize) -> (r: Vec<u8>)
    requires
        off + len <= src@.len(),
    ensures
        r@ == src@.subrange(off as int, off + len),
{
    let mut v: Vec<u8> = Vec::new();
    let slen = src.len();
    for i in 0..len
        invariant
            off + len <= slen,
            slen == src@.len(),
            v@.len() == i,
            forall|k: int| 0 <= k < i ==> v@[k] == src@[off + k],
    {
        v.push(src[off + i]);
    }
    proof {
        assert(v@ =~= src@.subrange(off as int, off + len));
    }
    v
}

/// The absolute value of an integer.
pub open spec fn iabs(x: int) -> int {
    if x < 0 {
        -x
    } else {
        x
    }
}

/// The greatest common divisor, by Euclid's recursion.
pub open spec fn gcd_spec(a: nat, b: nat) -> nat
    decreases b,
{
    if b == 0 {
        a
    } else {
        gcd_spec(b, a % b)
    }
}

/// Extended Euclid on small positive inputs: the result `(x, y, g)`
/// satisfies the Bezout identity `a*x + b*y == g`, and `g` is the
/// greatest common divisor. The alternating signs of the coefficient
/// sequences bound them by the inputs, so the arithmetic cannot
/// overflow.
pub fn egcd(a: u64, b: u64) -> (res: (i64, i64, u64))
    requires
        1 <= a,
        1 <= b,
        a <= 0x1_0000,
        b <= 0x1_0000,
    ensures
        (a as int) * (res.0 as int) + (b as int) * (res.1 as int) == res.2 as int,
        res.2 == gcd_spec(a as nat, b as nat),
        1 <= res.2,
{
    let mut old_r: u64 = a;
    let mut r: u64 = b;
    let mut old_s: i64 = 1;
    let mut s: i64 = 0;
    let mut old_t: i64 = 0;
    let mut t: i64 = 1;
    proof {
        assert(iabs(1int) * (b as int) + iabs(0int) * (a as int) == b && iabs(0int) * (b as int)
            + iabs(1int) * (a as int) == a) by (nonlinear_arith)
            requires
                a >= 1,
                b >= 1,
        ;
    }
    while r > 0
        invariant
            1 <= a <= 0x1_0000,
            1 <= b <= 0x1_0000,
            old_r >= 1,
            old_r <= 0x1_0000,
            r <= 0x1_0000,
            (a as int) * old_s + (b as int) * old_t == old_r,
            (a as int) * s + (b as int) * t == r,
            old_s * s <= 0,
            old_t * t <= 0,
            iabs(old_s as int) * r + iabs(s as int) * old_r == b,
            iabs(old_t as int) * r + iabs(t as int) * old_r == a,
            gcd_spec(old_r as nat, r as nat) == gcd_spec(a as nat, b as nat),
        decreases r,
    {
        let quo: u64 = old_r / r;
        let rem: u64 = old_r % r;
        proof {
            assert(quo <= 0x1_0000 && quo * r + rem == old_r && rem < r) by (nonlinear_arith)
                requires
                    r > 0,
                    old_r >= 1,
                    old_r <= 0x1_0000,
                    quo == old_r as int / r as int,
                    rem == old_r as int % r as int,
            ;
            assert(iabs(s as int) <= b && iabs(old_s as int) <= b && iabs(t as int) <= a && iabs(
                old_t as int,
            ) <= a) by (nonlinear_arith)
                requires
                    r > 0,
                    old_r >= 1,
                    iabs(old_s as int) * r + iabs(s as int) * old_r == b,
                    iabs(old_t as int) * r + iabs(t as int) * old_r == a,
            ;
            assert(-0x8000_0000_0000 <= (quo as int) * s <= 0x8000_0000_0000
                && -0x8000_0000_0000 <= (quo as int) * t <= 0x8000_0000_0000) by (nonlinear_arith)
                requires
                    0 <= quo <= 0x1_0000,
                    -0x1_0000 <= s <= 0x1_0000,
                    -0x1_0000 <= t <= 0x1_0000,
            ;
        }
        let new_s: i64 = old_s - (quo as i64) * s;
        let new_t: i64 = old_t - (quo as i64) * t;
        proof {
            assert((a as int) * new_s + (b as int) * new_t == rem) by (nonlinear_arith)
                requires
                    (a as int) * old_s + (b as int) * old_t == old_r,
                    (a as int) * s + (b as int) * t == r,
                    new_s == old_s - (quo as int) * s,
                    new_t == old_t - (quo as int) * t,
                    (quo as int) * r + rem == old_r,
            ;
            // The signs of consecutive coefficients alternate, so the
            // absolute value of the update is the sum of the parts and
            // the weighted-absolute identity is preserved.
            assert(s * new_s <= 0 && iabs(new_s as int) == iabs(old_s as int) + (quo as int) * iabs(
                s as int,
            )) by (nonlinear_arith)
                requires
                    old_s * s <= 0,
                    new_s == old_s - (quo as int) * s,
                    quo >= 0,
            ;
            assert(t * new_t <= 0 && iabs(new_t as int) == iabs(old_t as int) + (quo as int) * iabs(
                t as int,
            )) by (nonlinear_arith)
                requires
                    old_t * t <= 0,
                    new_t == old_t - (quo as int) * t,
                    quo >= 0,
            ;
            assert(iabs(s as int) * rem + iabs(new_s as int) * r == b) by (nonlinear_arith)
                requires
                    iabs(old_s as int) * r + iabs(s as int) * old_r == b,
                    iabs(new_s as int) == iabs(old_s as int) + (quo as int) * iabs(s as int),
                    (quo as int) * r + rem == old_r,
            ;
            assert(iabs(t as int) * rem + iabs(new_t as int) * r == a) by (nonlinear_arith)
                requires
                    iabs(old_t as int) * r + iabs(t as int) * old_r == a,
                    iabs(new_t as int) == iabs(old_t as int) + (quo as int) * iabs(t as int),
                    (quo as int) * r + rem == old_r,
            ;
        }
        old_r = r;
        r = rem;
        old_s = s;
        s = new_s;
        old_t = t;
        t = new_t;
    }
    (old_s, old_t, old_r)
}

/// The inverse of `a` modulo `m`: `Some(x)` with `a * x == 1 (mod m)`
/// exactly when `a` and `m` are coprime, `None` otherwise.
pub fn invm(a: u64, m: u64) -> (res: Option<i64>)
    requires
        1 <= a,
        2 <= m,
        a <= 0x1_0000,
        m <= 0x1_0000,
    ensures
        res is Some <==> gcd_spec(a as nat, m as nat) == 1,
        res is Some ==> cong(m as int, (a as int) * (res->Some_0 as int), 1),
{
    let (x, y, g) = egcd(a, m);
    if g == 1 {
        proof {
            crate::modular::lemma_cong_multiple(m as int, -(y as int));
            assert(-(y as int) * (m as int) == (a as int) * (x as int) - 1) by (nonlinear_arith)
                requires
                    (a as int) * (x as int) + (m as int) * (y as int) == 1,
            ;
        }
        Some(x)
    } else {
        None
    }
}

} // verus!
