//! The filter's difference equation and what it means to run it over a
//! sequence of samples. Every engine is specified against this module.
use vstd::prelude::*;
use crate::lane::{
    congruent, lane_mul, lane_mul_add, lane_sub, lemma_congruent_wrap, lemma_wrap_congruent,
    lemma_wrap_fixed, wrap,
};

verus! {

/// The five weights of the difference equation
/// `y[n] = a0 x[n] + a1 x[n-1] + a2 x[n-2] - b1 y[n-1] - b2 y[n-2]`.
#[derive(Clone, Copy, Debug, PartialEq, Eq, Structural)]
pub struct Coefficients {
    pub a0: i32,
    pub a1: i32,
    pub a2: i32,
    pub b1: i32,
    pub b2: i32,
}

/// What an engine carries from one call to the next: the two latest inputs
/// and the two latest outputs, newest first.
#[derive(Clone, Copy, Debug, PartialEq, Eq, Structural)]
pub struct History {
    pub xm1: i32,
    pub xm2: i32,
    pub ym1: i32,
    pub ym2: i32,
}

/// The weights of the first-order section with pole weight `alpha`:
/// `a0 = b1 = alpha`, `a1 = 1`, and no second-order term.
pub open spec fn one_pole_weights(alpha: i32) -> Coefficients {
    Coefficients { a0: alpha, a1: 1, a2: 0, b1: alpha, b2: 0 }
}

/// The history of an engine that has seen nothing but silence.
pub open spec fn silence() -> History {
    History { xm1: 0, xm2: 0, ym1: 0, ym2: 0 }
}

impl Coefficients {
    /// Only the first-order terms are present.
    pub open spec fn is_first_order(self) -> bool {
        self.a2 == 0 && self.b2 == 0
    }

    /// The first-order section with pole weight `alpha`.
    pub fn one_pole(alpha: i32) -> (c: Coefficients)
        ensures
            c == one_pole_weights(alpha),
            c.is_first_order(),
    {
        Coefficients { a0: alpha, a1: 1, a2: 0, b1: alpha, b2: 0 }
    }
}

impl History {
    /// The history of an engine that has seen nothing but silence.
    pub fn silent() -> (h: History)
        ensures
            h == silence(),
    {
        History { xm1: 0, xm2: 0, ym1: 0, ym2: 0 }
    }
}

/// The right-hand side of the difference equation over the integers, before
/// it is reduced to a lane.
pub open spec fn weighted(c: Coefficients, x0: int, x1: int, x2: int, y1: int, y2: int) -> int {
    c.a0 * x0 + c.a1 * x1 + c.a2 * x2 - c.b1 * y1 - c.b2 * y2
}

/// The output for input `x` after history `h`.
pub open spec fn step_output(c: Coefficients, h: History, x: i32) -> i32 {
    wrap(weighted(c, x as int, h.xm1 as int, h.xm2 as int, h.ym1 as int, h.ym2 as int))
}

/// The history after input `x` has followed history `h`.
pub open spec fn step_history(c: Coefficients, h: History, x: i32) -> History {
    History { xm1: x, xm2: h.xm1, ym1: step_output(c, h, x), ym2: h.ym1 }
}

/// The history after the first `k` samples of `xs` have followed `h`.
pub open spec fn history_after(c: Coefficients, h: History, xs: Seq<i32>, k: nat) -> History
    decreases k,
{
    if k == 0 {
        h
    } else {
        step_history(c, history_after(c, h, xs, (k - 1) as nat), xs[k - 1])
    }
}

/// The output for sample `k` of `xs`, the samples before it having followed `h`.
pub open spec fn output_at(c: Coefficients, h: History, xs: Seq<i32>, k: nat) -> i32 {
    step_output(c, history_after(c, h, xs, k), xs[k as int])
}

/// The outputs of the recurrence for the samples `xs` after history `h`.
pub open spec fn run_outputs(c: Coefficients, h: History, xs: Seq<i32>) -> Seq<i32> {
    Seq::new(xs.len(), |k: int| output_at(c, h, xs, k as nat))
}

/// The history that the samples `xs` leave behind after history `h`.
pub open spec fn run_history(c: Coefficients, h: History, xs: Seq<i32>) -> History {
    history_after(c, h, xs, xs.len())
}

/// One step of the recurrence: the output for `x` and the history it leaves.
pub fn step(c: &Coefficients, h: &History, x: i32) -> (r: (i32, History))
    ensures
        r.0 == step_output(*c, *h, x),
        r.1 == step_history(*c, *h, x),
{
    let t2 = lane_mul(c.a2, h.xm2);
    let t1 = lane_mul_add(c.a1, h.xm1, t2);
    let feed = lane_mul_add(c.a0, x, t1);
    let u2 = lane_mul(c.b2, h.ym2);
    let back = lane_mul_add(c.b1, h.ym1, u2);
    let y = lane_sub(feed, back);
    proof {
        let exact = weighted(*c, x as int, h.xm1 as int, h.xm2 as int, h.ym1 as int, h.ym2 as int);
        lemma_wrap_congruent(c.a2 * h.xm2);
        lemma_wrap_congruent(c.a1 * h.xm1 + t2);
        lemma_wrap_congruent(c.a0 * x + t1);
        lemma_wrap_congruent(c.b2 * h.ym2);
        lemma_wrap_congruent(c.b1 * h.ym1 + u2);
        lemma_wrap_congruent(feed - back);
        assert(congruent(y as int, exact));
        lemma_congruent_wrap(y as int, exact);
        lemma_wrap_fixed(y);
    }
    (y, History { xm1: x, xm2: h.xm1, ym1: y, ym2: h.ym1 })
}

} // verus!
