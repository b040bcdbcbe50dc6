//! Block linearization: the weights that give each output of a block as one
//! linear combination of the block's inputs and the carried history, with no
//! output of the block depending on another.
//!
//! The column space of a block of width `w` has `w + 4` columns: the block's
//! inputs from the newest (`x[n+w-1]`, column 0) to the oldest (`x[n]`, column
//! `w - 1`), then `x[n-1]`, `x[n-2]`, `y[n-1]` and `y[n-2]`.
use vstd::prelude::*;
use crate::lane::{
    congruent, lane_mul, lane_mul_add, lane_sub, lemma_congruent_wrap, lemma_wrap_congruent,
    lemma_congruent_mul, lemma_wrap_fixed, wrap,
};
use crate::recurrence::{history_after, output_at, weighted, Coefficients, History};

verus! {

/// Which weight of the difference equation a row takes from a column before
/// any substitution.
#[derive(Clone, Copy, Debug, PartialEq, Eq, Structural)]
pub enum Tap {
    Zero,
    A0,
    A1,
    A2,
    NegB1,
    NegB2,
}

/// The weight that a tap stands for, as an integer.
pub open spec fn tap_weight(c: Coefficients, t: Tap) -> int {
    match t {
        Tap::Zero => 0,
        Tap::A0 => c.a0 as int,
        Tap::A1 => c.a1 as int,
        Tap::A2 => c.a2 as int,
        Tap::NegB1 => -(c.b1 as int),
        Tap::NegB2 => -(c.b2 as int),
    }
}

/// The tap of row `k` in column `j` of the unsubstituted matrix for width `w`.
///
/// Row `k` is the difference equation for `y[n+k]`. An input column holds the
/// sample of time `w - 1 - j` relative to the block's start, an output column
/// the carried output of time `w + 1 - j`; outputs inside the block have no
/// column, which is what substitution makes up for.
pub open spec fn seed_tap_spec(w: int, k: int, j: int) -> Tap {
    if j < w + 2 {
        let t = w - 1 - j;
        if t == k {
            Tap::A0
        } else if t == k - 1 {
            Tap::A1
        } else if t == k - 2 {
            Tap::A2
        } else {
            Tap::Zero
        }
    } else {
        let t = w + 1 - j;
        if t == k - 1 {
            Tap::NegB1
        } else if t == k - 2 {
            Tap::NegB2
        } else {
            Tap::Zero
        }
    }
}

/// Entry `(k, j)` of the unsubstituted matrix.
pub open spec fn seed(c: Coefficients, w: int, k: int, j: int) -> int {
    tap_weight(c, seed_tap_spec(w, k, j))
}

/// Entry `(k, j)` of the linearized matrix over the integers: the seed, with
/// the two rows before it substituted for `y[n+k-1]` and `y[n+k-2]`.
pub open spec fn entry(c: Coefficients, w: int, k: int, j: int) -> int
    decreases k + 2,
{
    if k < 0 {
        0
    } else {
        seed(c, w, k, j) - c.b1 * entry(c, w, k - 1, j) - c.b2 * entry(c, w, k - 2, j)
    }
}

/// The tap of row `k` in column `j` for width `w`.
pub fn seed_tap(w: usize, k: usize, j: usize) -> (t: Tap)
    requires
        k < w <= usize::MAX - 4,
        j < w + 4,
    ensures
        t == seed_tap_spec(w as int, k as int, j as int),
{
    if j < w + 2 {
        if j == w - 1 - k {
            Tap::A0
        } else if j == w - k {
            Tap::A1
        } else if j == w - k + 1 {
            Tap::A2
        } else {
            Tap::Zero
        }
    } else {
        if j == w + 2 - k {
            Tap::NegB1
        } else if j == w + 3 - k {
            Tap::NegB2
        } else {
            Tap::Zero
        }
    }
}

/// The lane value of a tap's weight.
pub fn tap_lane(c: &Coefficients, t: Tap) -> (r: i32)
    ensures
        r == wrap(tap_weight(*c, t)),
{
    proof {
        lemma_wrap_fixed(c.a0);
        lemma_wrap_fixed(c.a1);
        lemma_wrap_fixed(c.a2);
    }
    match t {
        Tap::Zero => 0,
        Tap::A0 => c.a0,
        Tap::A1 => c.a1,
        Tap::A2 => c.a2,
        Tap::NegB1 => lane_sub(0, c.b1),
        Tap::NegB2 => lane_sub(0, c.b2),
    }
}

/// Column `j` of the linearized matrix for width `W`, one lane for each row,
/// by forward substitution from the first row to the last.
pub fn linearized_column<const W: usize>(c: &Coefficients, j: usize) -> (col: [i32; W])
    requires
        W <= usize::MAX - 4,
        j < W + 4,
    ensures
        forall|k: int| 0 <= k < W ==> col[k] == wrap(entry(*c, W as int, k, j as int)),
{
    let mut col: [i32; W] = [0i32; W];
    let mut prev1: i32 = 0;
    let mut prev2: i32 = 0;
    let mut k: usize = 0;
    while k < W
        invariant
            k <= W <= usize::MAX - 4,
            j < W + 4,
            prev1 == wrap(entry(*c, W as int, k - 1, j as int)),
            prev2 == wrap(entry(*c, W as int, k - 2, j as int)),
            forall|i: int| 0 <= i < k ==> col[i] == wrap(entry(*c, W as int, i, j as int)),
        decreases W - k,
    {
        let s = tap_lane(c, seed_tap(W, k, j));
        let back2 = lane_mul(c.b2, prev2);
        let back = lane_mul_add(c.b1, prev1, back2);
        let v = lane_sub(s, back);
        proof {
            let e1 = entry(*c, W as int, k - 1, j as int);
            let e2 = entry(*c, W as int, k - 2, j as int);
            let e = entry(*c, W as int, k as int, j as int);
            lemma_wrap_congruent(e1);
            lemma_wrap_congruent(e2);
            lemma_congruent_mul(c.b1 as int, c.b1 as int, prev1 as int, e1);
            lemma_congruent_mul(c.b2 as int, c.b2 as int, prev2 as int, e2);
            lemma_wrap_congruent(seed(*c, W as int, k as int, j as int));
            lemma_wrap_congruent(c.b2 * prev2);
            lemma_wrap_congruent(c.b1 * prev1 + back2);
            lemma_wrap_congruent(s - back);
            assert(congruent(v as int, e));
            lemma_congruent_wrap(v as int, e);
            lemma_wrap_fixed(v);
        }
        col[k] = v;
        prev2 = prev1;
        prev1 = v;
        k = k + 1;
    }
    col
}

/// The input of time `t` relative to the block's start: a sample of the block
/// for `t >= 0`, a carried input for `t` of -1 or -2.
pub open spec fn x_at(h: History, xs: Seq<i32>, t: int) -> int {
    if t >= 0 {
        xs[t] as int
    } else if t == -1 {
        h.xm1 as int
    } else {
        h.xm2 as int
    }
}

/// The output of time `t` relative to the block's start: what the recurrence
/// gives for `t >= 0`, a carried output for `t` of -1 or -2.
pub open spec fn y_at(c: Coefficients, h: History, xs: Seq<i32>, t: int) -> int {
    if t >= 0 {
        output_at(c, h, xs, t as nat) as int
    } else if t == -1 {
        h.ym1 as int
    } else {
        h.ym2 as int
    }
}

/// The value in column `j` of the column space, for the block `xs` after
/// history `h`.
pub open spec fn slot(h: History, xs: Seq<i32>, w: int, j: int) -> int {
    if j < w + 2 {
        x_at(h, xs, w - 1 - j)
    } else if j == w + 2 {
        h.ym1 as int
    } else {
        h.ym2 as int
    }
}

/// Row `k` of the unsubstituted matrix applied to the first `n` columns.
pub open spec fn seed_mix(c: Coefficients, h: History, xs: Seq<i32>, w: int, k: int, n: int) -> int
    decreases n,
{
    if n <= 0 {
        0
    } else {
        seed_mix(c, h, xs, w, k, n - 1) + seed(c, w, k, n - 1) * slot(h, xs, w, n - 1)
    }
}

/// Row `k` of the linearized matrix applied to the first `n` columns.
pub open spec fn exact_mix(c: Coefficients, h: History, xs: Seq<i32>, w: int, k: int, n: int) -> int
    decreases n,
{
    if n <= 0 {
        0
    } else {
        exact_mix(c, h, xs, w, k, n - 1) + entry(c, w, k, n - 1) * slot(h, xs, w, n - 1)
    }
}

/// A row before the first applies to nothing.
pub proof fn lemma_exact_mix_before_first(
    c: Coefficients,
    h: History,
    xs: Seq<i32>,
    w: int,
    k: int,
    n: int,
)
    requires
        k < 0,
    ensures
        exact_mix(c, h, xs, w, k, n) == 0,
    decreases n,
{
    if n > 0 {
        lemma_exact_mix_before_first(c, h, xs, w, k, n - 1);
    }
}

/// Substitution is linear: a linearized row applied to the columns is the
/// seed row applied to them, less `b1` times the row before and `b2` times
/// the row before that, applied to the same columns.
pub proof fn lemma_exact_mix_substitutes(
    c: Coefficients,
    h: History,
    xs: Seq<i32>,
    w: int,
    k: int,
    n: int,
)
    requires
        0 <= k,
    ensures
        exact_mix(c, h, xs, w, k, n) == seed_mix(c, h, xs, w, k, n) - c.b1 * exact_mix(
            c,
            h,
            xs,
            w,
            k - 1,
            n,
        ) - c.b2 * exact_mix(c, h, xs, w, k - 2, n),
    decreases n,
{
    if n > 0 {
        lemma_exact_mix_substitutes(c, h, xs, w, k, n - 1);
        let v = slot(h, xs, w, n - 1);
        let s = seed(c, w, k, n - 1);
        let e1 = entry(c, w, k - 1, n - 1);
        let e2 = entry(c, w, k - 2, n - 1);
        let m1 = exact_mix(c, h, xs, w, k - 1, n - 1);
        let m2 = exact_mix(c, h, xs, w, k - 2, n - 1);
        let b1 = c.b1 as int;
        let b2 = c.b2 as int;
        assert(entry(c, w, k, n - 1) == s - b1 * e1 - b2 * e2);
        let p1 = b1 * e1;
        let p2 = b2 * e2;
        let q1 = e1 * v;
        let q2 = e2 * v;
        assert((s - p1 - p2) * v == s * v - p1 * v - p2 * v) by (nonlinear_arith);
        assert(p1 * v == b1 * q1) by (nonlinear_arith)
            requires
                p1 == b1 * e1,
                q1 == e1 * v,
        ;
        assert(p2 * v == b2 * q2) by (nonlinear_arith)
            requires
                p2 == b2 * e2,
                q2 == e2 * v,
        ;
        assert(b1 * (m1 + q1) == b1 * m1 + b1 * q1) by (nonlinear_arith);
        assert(b2 * (m2 + q2) == b2 * m2 + b2 * q2) by (nonlinear_arith);
    }
}

/// What the difference equation for `y[n+k]` takes from the history alone,
/// among the first `n` columns.
pub open spec fn carried_terms(c: Coefficients, h: History, w: int, k: int, n: int) -> int {
    (if k == 0 && w + 2 < n {
        -(c.b1 as int) * h.ym1
    } else if k == 1 && w + 2 < n {
        -(c.b2 as int) * h.ym1
    } else {
        0
    }) + (if k == 0 && w + 3 < n {
        -(c.b2 as int) * h.ym2
    } else {
        0
    })
}

/// What the difference equation for `y[n+k]` takes from the inputs, among
/// the first `n` columns.
pub open spec fn input_terms(c: Coefficients, h: History, xs: Seq<i32>, w: int, k: int, n: int) -> int {
    (if w - 1 - k < n {
        c.a0 * x_at(h, xs, k)
    } else {
        0
    }) + (if w - k < n {
        c.a1 * x_at(h, xs, k - 1)
    } else {
        0
    }) + (if w + 1 - k < n {
        c.a2 * x_at(h, xs, k - 2)
    } else {
        0
    })
}

/// A seed row applied to the columns picks the terms of its difference
/// equation that the columns hold.
pub proof fn lemma_seed_mix_terms(c: Coefficients, h: History, xs: Seq<i32>, w: int, k: int, n: int)
    requires
        0 <= k < w,
        0 <= n <= w + 4,
    ensures
        seed_mix(c, h, xs, w, k, n) == input_terms(c, h, xs, w, k, n) + carried_terms(
            c,
            h,
            w,
            k,
            n,
        ),
    decreases n,
{
    if n > 0 {
        lemma_seed_mix_terms(c, h, xs, w, k, n - 1);
    }
}

/// The history after `k` samples holds the two inputs and the two outputs
/// just before time `k`.
pub proof fn lemma_history_after(c: Coefficients, h: History, xs: Seq<i32>, k: nat)
    ensures
        history_after(c, h, xs, k).xm1 == x_at(h, xs, k - 1),
        history_after(c, h, xs, k).xm2 == x_at(h, xs, k - 2),
        history_after(c, h, xs, k).ym1 == y_at(c, h, xs, k - 1),
        history_after(c, h, xs, k).ym2 == y_at(c, h, xs, k - 2),
    decreases k,
{
    if k > 0 {
        lemma_history_after(c, h, xs, (k - 1) as nat);
    }
}

/// The linearized matrix computes the recurrence: row `k`, applied to the
/// block and the carried history, is congruent to output `k` of the
/// recurrence run sample by sample from the same history.
pub proof fn lemma_linearized_row_is_output(
    c: Coefficients,
    h: History,
    xs: Seq<i32>,
    w: int,
    k: int,
)
    requires
        0 <= k < w,
    ensures
        wrap(exact_mix(c, h, xs, w, k, w + 4)) == output_at(c, h, xs, k as nat),
    decreases k,
{
    let n = w + 4;
    let m1 = exact_mix(c, h, xs, w, k - 1, n);
    let m2 = exact_mix(c, h, xs, w, k - 2, n);
    let y1 = y_at(c, h, xs, k - 1);
    let y2 = y_at(c, h, xs, k - 2);
    let b1 = c.b1 as int;
    let b2 = c.b2 as int;
    lemma_exact_mix_substitutes(c, h, xs, w, k, n);
    lemma_seed_mix_terms(c, h, xs, w, k, n);
    lemma_history_after(c, h, xs, k as nat);
    let feed = c.a0 * x_at(h, xs, k) + c.a1 * x_at(h, xs, k - 1) + c.a2 * x_at(h, xs, k - 2);
    // What each earlier row contributes, and what the recurrence takes in its place.
    let back1 = if k >= 1 { b1 * m1 } else { b1 * (h.ym1 as int) };
    let back2 = if k >= 2 { b2 * m2 } else if k == 1 { b2 * (h.ym1 as int) } else { b2 * (h.ym2 as int) };
    if k >= 1 {
        lemma_linearized_row_is_output(c, h, xs, w, k - 1);
        lemma_wrap_congruent(m1);
        lemma_congruent_mul(b1, b1, m1, y1);
    } else {
        lemma_exact_mix_before_first(c, h, xs, w, k - 1, n);
    }
    if k >= 2 {
        lemma_linearized_row_is_output(c, h, xs, w, k - 2);
        lemma_wrap_congruent(m2);
        lemma_congruent_mul(b2, b2, m2, y2);
    } else {
        lemma_exact_mix_before_first(c, h, xs, w, k - 2, n);
    }
    assert(exact_mix(c, h, xs, w, k, n) == feed - back1 - back2) by {
        assert(b1 * 0 == 0);
        assert(b2 * 0 == 0);
        assert(-b1 * (h.ym1 as int) == -(b1 * (h.ym1 as int))) by (nonlinear_arith);
        assert(-b2 * (h.ym1 as int) == -(b2 * (h.ym1 as int))) by (nonlinear_arith);
        assert(-b2 * (h.ym2 as int) == -(b2 * (h.ym2 as int))) by (nonlinear_arith);
    }
    assert(congruent(back1, b1 * y1));
    assert(congruent(back2, b2 * y2));
    let exact = feed - b1 * y1 - b2 * y2;
    assert(congruent(feed - back1 - back2, exact));
    lemma_congruent_wrap(exact_mix(c, h, xs, w, k, n), exact);
    assert(exact == weighted(c, xs[k] as int, x_at(h, xs, k - 1), x_at(h, xs, k - 2), y1, y2));
}

} // verus!
