//! What holds between runs of the recurrence: a run may be cut at any sample
//! and resumed from the history it left, and so a run in blocks of any width
//! gives what a run sample by sample gives.
use vstd::prelude::*;
use crate::lane::wrap;
use crate::linearize::{lemma_history_after, x_at};
use crate::recurrence::{
    history_after, one_pole_weights, output_at, run_history, run_outputs, silence, weighted,
    Coefficients, History,
};

verus! {

/// The history after `k` samples depends on those `k` samples alone.
pub proof fn lemma_history_of_prefix(
    c: Coefficients,
    h: History,
    xs: Seq<i32>,
    zs: Seq<i32>,
    k: nat,
)
    requires
        k <= xs.len(),
        k <= zs.len(),
        forall|i: int| 0 <= i < k ==> xs[i] == zs[i],
    ensures
        history_after(c, h, xs, k) == history_after(c, h, zs, k),
    decreases k,
{
    if k > 0 {
        lemma_history_of_prefix(c, h, xs, zs, (k - 1) as nat);
    }
}

/// The history after all of `xs` and `k` samples of `ys` is the history after
/// `k` samples of `ys`, started from what `xs` left.
pub proof fn lemma_history_resumes(
    c: Coefficients,
    h: History,
    xs: Seq<i32>,
    ys: Seq<i32>,
    k: nat,
)
    requires
        k <= ys.len(),
    ensures
        history_after(c, h, xs + ys, xs.len() + k) == history_after(
            c,
            run_history(c, h, xs),
            ys,
            k,
        ),
    decreases k,
{
    if k == 0 {
        lemma_history_of_prefix(c, h, xs + ys, xs, xs.len());
    } else {
        lemma_history_resumes(c, h, xs, ys, (k - 1) as nat);
        assert((xs + ys)[xs.len() + k - 1] == ys[k - 1]);
    }
}

/// State continuity: a run over `xs` followed by `ys` gives the outputs of a
/// run over `xs`, then those of a run over `ys` started from the history that
/// `xs` left, and leaves the history that the second run leaves.
pub proof fn lemma_run_concat(c: Coefficients, h: History, xs: Seq<i32>, ys: Seq<i32>)
    ensures
        run_outputs(c, h, xs + ys) == run_outputs(c, h, xs) + run_outputs(
            c,
            run_history(c, h, xs),
            ys,
        ),
        run_history(c, h, xs + ys) == run_history(c, run_history(c, h, xs), ys),
{
    let whole = run_outputs(c, h, xs + ys);
    let parts = run_outputs(c, h, xs) + run_outputs(c, run_history(c, h, xs), ys);
    assert forall|k: int| 0 <= k < whole.len() implies whole[k] == parts[k] by {
        if k < xs.len() {
            lemma_history_of_prefix(c, h, xs + ys, xs, k as nat);
        } else {
            lemma_history_resumes(c, h, xs, ys, (k - xs.len()) as nat);
        }
    }
    assert(whole =~= parts);
    lemma_history_resumes(c, h, xs, ys, ys.len());
}

/// The outputs of a run in blocks of `w` samples: each block gives the
/// outputs of the recurrence from the history that the block before left. A
/// tail shorter than a block is dropped.
pub open spec fn blockwise_outputs(c: Coefficients, h: History, xs: Seq<i32>, w: nat) -> Seq<i32>
    decreases xs.len(),
{
    if w == 0 || xs.len() < w {
        Seq::empty()
    } else {
        run_outputs(c, h, xs.take(w as int)) + blockwise_outputs(
            c,
            run_history(c, h, xs.take(w as int)),
            xs.skip(w as int),
            w,
        )
    }
}

/// The history that a run in blocks of `w` samples leaves.
pub open spec fn blockwise_history(c: Coefficients, h: History, xs: Seq<i32>, w: nat) -> History
    decreases xs.len(),
{
    if w == 0 || xs.len() < w {
        h
    } else {
        blockwise_history(c, run_history(c, h, xs.take(w as int)), xs.skip(w as int), w)
    }
}

/// The number of samples of `len` that lie in whole blocks of `w`.
pub open spec fn whole_blocks(len: nat, w: nat) -> nat {
    if w == 0 {
        0
    } else {
        (len - len % w) as nat
    }
}

/// A run in blocks is a run sample by sample over the samples that lie in
/// whole blocks.
pub proof fn lemma_blockwise_is_run(c: Coefficients, h: History, xs: Seq<i32>, w: nat)
    ensures
        whole_blocks(xs.len(), w) <= xs.len(),
        blockwise_outputs(c, h, xs, w) == run_outputs(
            c,
            h,
            xs.take(whole_blocks(xs.len(), w) as int),
        ),
        blockwise_history(c, h, xs, w) == run_history(
            c,
            h,
            xs.take(whole_blocks(xs.len(), w) as int),
        ),
    decreases xs.len(),
{
    let len = xs.len();
    if w == 0 {
        assert(run_outputs(c, h, xs.take(0)) =~= Seq::<i32>::empty());
    } else if len < w {
        vstd::arithmetic::div_mod::lemma_small_mod(len, w);
        assert(run_outputs(c, h, xs.take(0)) =~= Seq::<i32>::empty());
    } else {
        let head = xs.take(w as int);
        let rest = xs.skip(w as int);
        let next = run_history(c, h, head);
        lemma_blockwise_is_run(c, next, rest, w);
        vstd::arithmetic::div_mod::lemma_mod_multiples_vanish(-1, len as int, w as int);
        assert((rest.len() as int) % (w as int) == (len as int) % (w as int));
        let kept = whole_blocks(rest.len(), w);
        assert(rest.len() == len - w);
        assert(rest.len() % w == len % w);
        vstd::arithmetic::div_mod::lemma_mod_decreases(rest.len(), w);
        assert(whole_blocks(len, w) == w + kept);
        assert(head + rest.take(kept as int) =~= xs.take((w + kept) as int));
        lemma_run_concat(c, h, head, rest.take(kept as int));
    }
}

/// Block and scalar agree: over a sequence whose length is a multiple of the
/// block width, a run in blocks gives the outputs and leaves the history of a
/// run sample by sample.
pub proof fn lemma_blockwise_equals_scalar(c: Coefficients, h: History, xs: Seq<i32>, w: nat)
    requires
        w > 0,
        xs.len() % w == 0,
    ensures
        blockwise_outputs(c, h, xs, w) == run_outputs(c, h, xs),
        blockwise_history(c, h, xs, w) == run_history(c, h, xs),
{
    lemma_blockwise_is_run(c, h, xs, w);
    assert(xs.take(xs.len() as int) =~= xs);
}

/// The impulse response starts as the difference equation says: from
/// silence, a one followed by a zero gives `a0`, then `a1 - b1 * a0`.
pub proof fn lemma_impulse_response(c: Coefficients)
    ensures
        output_at(c, silence(), seq![1i32, 0i32], 0) == c.a0,
        output_at(c, silence(), seq![1i32, 0i32], 1) == wrap(c.a1 - c.b1 * c.a0),
{
    let xs = seq![1i32, 0i32];
    lemma_history_after(c, silence(), xs, 0);
    lemma_history_after(c, silence(), xs, 1);
    assert(weighted(c, 1, 0, 0, 0, 0) == c.a0) by (nonlinear_arith);
    assert(weighted(c, 0, 1, 0, c.a0 as int, 0) == c.a1 - c.b1 * c.a0) by (nonlinear_arith);
}

/// The magnitude of an integer.
pub open spec fn magnitude(v: int) -> int {
    if v < 0 {
        -v
    } else {
        v
    }
}

/// A section without feedback is bounded: where `b1` and `b2` are zero and
/// every input, carried or new, has magnitude at most `bound`, every output
/// has magnitude at most `(|a0| + |a1| + |a2|) * bound`, provided a lane can
/// hold that much.
pub proof fn lemma_feedback_free_bounded(
    c: Coefficients,
    h: History,
    xs: Seq<i32>,
    bound: int,
    k: nat,
)
    requires
        c.b1 == 0,
        c.b2 == 0,
        k < xs.len(),
        magnitude(h.xm1 as int) <= bound,
        magnitude(h.xm2 as int) <= bound,
        forall|i: int| 0 <= i < xs.len() ==> magnitude(#[trigger] xs[i] as int) <= bound,
        (magnitude(c.a0 as int) + magnitude(c.a1 as int) + magnitude(c.a2 as int)) * bound
            <= i32::MAX,
    ensures
        magnitude(output_at(c, h, xs, k) as int) <= (magnitude(c.a0 as int) + magnitude(
            c.a1 as int,
        ) + magnitude(c.a2 as int)) * bound,
{
    lemma_history_after(c, h, xs, k);
    let x0 = xs[k as int] as int;
    let x1 = x_at(h, xs, k - 1);
    let x2 = x_at(h, xs, k - 2);
    let y1 = history_after(c, h, xs, k).ym1 as int;
    let y2 = history_after(c, h, xs, k).ym2 as int;
    assert(magnitude(x0) <= bound);
    assert(magnitude(x1) <= bound);
    assert(magnitude(x2) <= bound);
    lemma_product_bounded(c.a0 as int, x0, bound);
    lemma_product_bounded(c.a1 as int, x1, bound);
    lemma_product_bounded(c.a2 as int, x2, bound);
    let (m0, m1, m2) = (magnitude(c.a0 as int), magnitude(c.a1 as int), magnitude(c.a2 as int));
    assert((m0 + m1 + m2) * bound == m0 * bound + m1 * bound + m2 * bound) by (nonlinear_arith);
    assert(c.b1 * y1 == 0) by (nonlinear_arith)
        requires
            c.b1 == 0,
    ;
    assert(c.b2 * y2 == 0) by (nonlinear_arith)
        requires
            c.b2 == 0,
    ;
    assert(weighted(c, x0, x1, x2, y1, y2) == c.a0 * x0 + c.a1 * x1 + c.a2 * x2);
}

/// A product is bounded by the product of the bounds of its factors.
pub proof fn lemma_product_bounded(a: int, x: int, bound: int)
    requires
        magnitude(x) <= bound,
    ensures
        magnitude(a * x) <= magnitude(a) * bound,
{
    assert(magnitude(a * x) <= magnitude(a) * bound) by (nonlinear_arith)
        requires
            -bound <= x <= bound,
    ;
}

/// Stability of the first-order section in integer weights: a pole weight of
/// magnitude below one is zero, and inputs of magnitude at most one then give
/// outputs of magnitude at most one.
pub proof fn lemma_one_pole_stable(alpha: i32, h: History, xs: Seq<i32>, k: nat)
    requires
        -1 < alpha < 1,
        k < xs.len(),
        magnitude(h.xm1 as int) <= 1,
        magnitude(h.xm2 as int) <= 1,
        forall|i: int| 0 <= i < xs.len() ==> magnitude(#[trigger] xs[i] as int) <= 1,
    ensures
        magnitude(output_at(one_pole_weights(alpha), h, xs, k) as int) <= 1,
{
    lemma_feedback_free_bounded(one_pole_weights(alpha), h, xs, 1, k);
}

} // verus!
