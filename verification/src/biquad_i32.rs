//! The scalar engine: the recurrence one sample at a time. It is the
//! reference that the block engines are specified against.
use vstd::prelude::*;
use crate::recurrence::{
    silence, step, step_history, step_output, Coefficients, History,
};

verus! {

/// A biquad section that takes one sample for each call.
#[derive(Clone, Copy, Debug)]
pub struct BiQuadI32 {
    pub a0: i32,
    pub a1: i32,
    pub a2: i32,
    pub b1: i32,
    pub b2: i32,
    z_a1: i32,
    z_a2: i32,
    z_b1: i32,
    z_b2: i32,
}

impl BiQuadI32 {
    /// The weights the engine runs with: its five public fields.
    pub closed spec fn coefficients(&self) -> Coefficients {
        Coefficients { a0: self.a0, a1: self.a1, a2: self.a2, b1: self.b1, b2: self.b2 }
    }

    /// The two inputs and two outputs the engine carries.
    pub closed spec fn history(&self) -> History {
        History { xm1: self.z_a1, xm2: self.z_a2, ym1: self.z_b1, ym2: self.z_b2 }
    }

    /// What `update` with the weights `c` makes of the engine `before`.
    pub open spec fn updated(self, before: Self, c: Coefficients) -> bool {
        &&& self.coefficients() == c
        &&& self.history() == before.history()
    }

    /// An engine with the weights `c` that has seen only silence.
    pub fn new(c: Coefficients) -> (b: Self)
        ensures
            b.coefficients() == c,
            b.history() == silence(),
    {
        let mut b = BiQuadI32 {
            a0: 0,
            a1: 0,
            a2: 0,
            b1: 0,
            b2: 0,
            z_a1: 0,
            z_a2: 0,
            z_b1: 0,
            z_b2: 0,
        };
        b.update(c);
        b
    }

    /// Replaces the weights and leaves the carried history as it is.
    pub fn update(&mut self, c: Coefficients)
        ensures
            final(self).updated(*old(self), c),
    {
        self.a0 = c.a0;
        self.a1 = c.a1;
        self.a2 = c.a2;
        self.b1 = c.b1;
        self.b2 = c.b2;
    }

    /// The output for `input`; the input and the output move into the history,
    /// and what was newest there becomes second.
    pub fn process(&mut self, input: i32) -> (y: i32)
        ensures
            y == step_output(old(self).coefficients(), old(self).history(), input),
            final(self).history() == step_history(
                old(self).coefficients(),
                old(self).history(),
                input,
            ),
            final(self).coefficients() == old(self).coefficients(),
    {
        let c = self.weights();
        let h = self.state();
        let (yn, next) = step(&c, &h, input);
        self.z_b2 = next.ym2;
        self.z_b1 = next.ym1;
        self.z_a2 = next.xm2;
        self.z_a1 = next.xm1;
        yn
    }

    /// Update is idempotent: a second `update` with the same weights leaves
    /// the engine as the first left it.
    pub proof fn lemma_update_idempotent(before: Self, once: Self, twice: Self, c: Coefficients)
        requires
            once.updated(before, c),
            twice.updated(once, c),
        ensures
            twice.coefficients() == once.coefficients(),
            twice.history() == once.history(),
            twice == once,
    {
    }

    /// The weights the engine runs with.
    pub fn weights(&self) -> (c: Coefficients)
        ensures
            c == self.coefficients(),
    {
        Coefficients { a0: self.a0, a1: self.a1, a2: self.a2, b1: self.b1, b2: self.b2 }
    }

    /// The carried history.
    pub fn state(&self) -> (h: History)
        ensures
            h == self.history(),
    {
        History { xm1: self.z_a1, xm2: self.z_a2, ym1: self.z_b1, ym2: self.z_b2 }
    }
}

} // verus!
