//! Arithmetic on one 32-bit lane: the integers modulo 2^32, kept in `i32`.
use vstd::prelude::*;

verus! {

/// The number of residues a lane distinguishes.
pub open spec fn modulus() -> int {
    0x1_0000_0000
}

/// The lane value that stands for the integer `x`: the one value of `i32`
/// that differs from `x` by a multiple of 2^32.
pub open spec fn wrap(x: int) -> i32 {
    if x % 0x1_0000_0000 > i32::MAX as int {
        (x % 0x1_0000_0000 - 0x1_0000_0000) as i32
    } else {
        (x % 0x1_0000_0000) as i32
    }
}

/// Two integers that a lane cannot tell apart.
pub open spec fn congruent(a: int, b: int) -> bool {
    (a - b) % modulus() == 0
}

/// A lane value stands for itself.
pub proof fn lemma_wrap_fixed(v: i32)
    ensures
        wrap(v as int) == v,
{
}

/// `wrap(x)` differs from `x` by a multiple of the modulus.
pub proof fn lemma_wrap_congruent(x: int)
    ensures
        congruent(wrap(x) as int, x),
{
}

/// Congruent integers have the same lane value, and only those.
pub proof fn lemma_congruent_wrap(a: int, b: int)
    ensures
        congruent(a, b) <==> wrap(a) == wrap(b),
{
}

/// Congruence is kept by sums.
pub proof fn lemma_congruent_add(a: int, b: int, c: int, d: int)
    requires
        congruent(a, b),
        congruent(c, d),
    ensures
        congruent(a + c, b + d),
{
}

/// Congruence is transitive.
pub proof fn lemma_congruent_trans(a: int, b: int, c: int)
    requires
        congruent(a, b),
        congruent(b, c),
    ensures
        congruent(a, c),
{
}

/// Congruence is kept when both sides are multiplied by congruent factors.
pub proof fn lemma_congruent_mul(a: int, b: int, c: int, d: int)
    requires
        congruent(a, b),
        congruent(c, d),
    ensures
        congruent(a * c, b * d),
{
    let m = modulus();
    let p = (a - b) / m;
    let q = (c - d) / m;
    assert(a - b == m * p);
    assert(c - d == m * q);
    let t = p * c + b * q;
    assert(a * c - b * d == m * t) by (nonlinear_arith)
        requires
            a - b == m * p,
            c - d == m * q,
            t == p * c + b * q,
    ;
    vstd::arithmetic::div_mod::lemma_mod_multiples_basic(t, m);
    assert(m * t == t * m) by (nonlinear_arith);
}

/// The lane sum: `a + b` modulo 2^32.
pub fn lane_add(a: i32, b: i32) -> (r: i32)
    ensures
        r == wrap(a + b),
{
    a.wrapping_add(b)
}

/// The lane difference: `a - b` modulo 2^32.
pub fn lane_sub(a: i32, b: i32) -> (r: i32)
    ensures
        r == wrap(a - b),
{
    a.wrapping_sub(b)
}

/// The lane product: `a * b` modulo 2^32.
pub fn lane_mul(a: i32, b: i32) -> (r: i32)
    ensures
        r == wrap(a * b),
{
    a.wrapping_mul(b)
}

/// Multiply and accumulate on one lane: `c * v + acc` modulo 2^32.
pub fn lane_mul_add(c: i32, v: i32, acc: i32) -> (r: i32)
    ensures
        r == wrap(c * v + acc),
{
    let p = lane_mul(c, v);
    let r = lane_add(p, acc);
    proof {
        lemma_wrap_congruent(c * v);
        lemma_congruent_add(p as int, c * v, acc as int, acc as int);
        lemma_wrap_congruent(p + acc);
        lemma_congruent_trans(r as int, p + acc, c * v + acc);
        lemma_congruent_wrap(r as int, c * v + acc);
        lemma_wrap_fixed(r);
    }
    r
}

} // verus!
