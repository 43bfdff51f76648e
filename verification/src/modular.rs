//! Small algebra of integer congruences used by the contracts of both
//! prime fields: every claim of the form `a == b (mod m)` is written as
//! `cong(m, a, b)`, and these lemmas move such claims across sums,
//! differences and products.

use vstd::arithmetic::div_mod::{
    lemma_add_mod_noop, lemma_mod_equivalence, lemma_mod_multiples_basic, lemma_mul_mod_noop_right,
    lemma_sub_mod_noop,
};
use vstd::prelude::*;

verus! {

/// `a` and `b` are congruent modulo `m`.
pub open spec fn cong(m: int, a: int, b: int) -> bool {
    (a - b) % m == 0
}

pub proof fn lemma_cong_trans(m: int, a: int, b: int, c: int)
    requires
        m > 0,
        cong(m, a, b),
        cong(m, b, c),
    ensures
        cong(m, a, c),
{
    lemma_mod_equivalence(a, b, m);
    lemma_mod_equivalence(b, c, m);
    lemma_mod_equivalence(a, c, m);
}

pub proof fn lemma_cong_add(m: int, a: int, b: int, c: int, d: int)
    requires
        m > 0,
        cong(m, a, b),
        cong(m, c, d),
    ensures
        cong(m, a + c, b + d),
{
    lemma_mod_equivalence(a, b, m);
    lemma_mod_equivalence(c, d, m);
    lemma_add_mod_noop(a, c, m);
    lemma_add_mod_noop(b, d, m);
    lemma_mod_equivalence(a + c, b + d, m);
}

pub proof fn lemma_cong_sub(m: int, a: int, b: int, c: int, d: int)
    requires
        m > 0,
        cong(m, a, b),
        cong(m, c, d),
    ensures
        cong(m, a - c, b - d),
{
    lemma_mod_equivalence(a, b, m);
    lemma_mod_equivalence(c, d, m);
    lemma_sub_mod_noop(a, c, m);
    lemma_sub_mod_noop(b, d, m);
    lemma_mod_equivalence(a - c, b - d, m);
}

/// A congruence survives multiplication by any integer.
pub proof fn lemma_cong_scale(m: int, a: int, b: int, k: int)
    requires
        m > 0,
        cong(m, a, b),
    ensures
        cong(m, k * a, k * b),
{
    lemma_mod_equivalence(a, b, m);
    lemma_mul_mod_noop_right(k, a, m);
    lemma_mul_mod_noop_right(k, b, m);
    lemma_mod_equivalence(k * a, k * b, m);
}

/// Any multiple of the modulus is congruent to zero.
pub proof fn lemma_cong_multiple(m: int, k: int)
    requires
        m > 0,
    ensures
        cong(m, k * m, 0),
{
    lemma_mod_multiples_basic(k, m);
    lemma_mod_equivalence(k * m, 0, m);
    vstd::arithmetic::div_mod::lemma_small_mod(0, m as nat);
}

} // verus!
