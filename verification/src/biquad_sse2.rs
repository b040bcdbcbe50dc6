//! The block engine of width four: four samples in, four samples out, from
//! one application of a stored 4 x 8 matrix.
use vstd::prelude::*;
use crate::block::{derive_matrix, linearized_matrix, matrix_view, process_block};
use crate::recurrence::{run_history, run_outputs, silence, Coefficients, History};

verus! {

/// A biquad section that takes four samples for each call, as many as the
/// 32-bit lanes of one 128-bit vector register.
pub struct BiQuadSSE2 {
    coeffs: Coefficients,
    /// One vector for each column: `x[n+3]` down to `x[n]`, `x[n-1]`, `x[n-2]`,
    /// `y[n-1]`, `y[n-2]`.
    cols: [[i32; 4]; 8],
    carried: History,
}

impl BiQuadSSE2 {
    /// The stored matrix is the linearization of the stored weights.
    #[verifier::type_invariant]
    spec fn matrix_is_linearized(self) -> bool {
        matrix_view(self.cols) == linearized_matrix(self.coeffs, 4)
    }

    /// The weights the engine runs with.
    pub closed spec fn coefficients(&self) -> Coefficients {
        self.coeffs
    }

    /// The two inputs and two outputs the engine carries.
    pub closed spec fn history(&self) -> History {
        self.carried
    }

    /// The stored matrix, column by column.
    pub closed spec fn matrix(&self) -> Seq<Seq<i32>> {
        matrix_view(self.cols)
    }

    /// What `update` with the weights `c` makes of the engine `before`.
    pub open spec fn updated(self, before: Self, c: Coefficients) -> bool {
        &&& self.coefficients() == c
        &&& self.matrix() == linearized_matrix(c, 4)
        &&& self.history() == before.history()
    }

    /// An engine with the weights `c` that has seen only silence.
    pub fn new(c: Coefficients) -> (b: Self)
        ensures
            b.coefficients() == c,
            b.matrix() == linearized_matrix(c, 4),
            b.history() == silence(),
    {
        BiQuadSSE2 { coeffs: c, cols: derive_matrix::<4, 8>(&c), carried: History::silent() }
    }

    /// Replaces the weights, derives the matrix again from them, and leaves
    /// the carried history as it is.
    pub fn update(&mut self, c: Coefficients)
        ensures
            final(self).updated(*old(self), c),
    {
        let carried = self.carried;
        *self = BiQuadSSE2 { coeffs: c, cols: derive_matrix::<4, 8>(&c), carried };
    }

    /// The outputs of the recurrence for the four samples of `input`, oldest
    /// first, as the scalar engine would give them one by one; the carried
    /// history becomes the last two samples of the block and the last two
    /// outputs.
    pub fn process(&mut self, input: [i32; 4]) -> (y: [i32; 4])
        ensures
            y@ == run_outputs(old(self).coefficients(), old(self).history(), input@),
            final(self).history() == run_history(
                old(self).coefficients(),
                old(self).history(),
                input@,
            ),
            final(self).coefficients() == old(self).coefficients(),
            final(self).matrix() == old(self).matrix(),
    {
        proof {
            use_type_invariant(&*self);
        }
        let (y, next) = process_block::<4, 8>(&self.coeffs, &self.cols, &self.carried, &input, false);
        self.carried = next;
        y
    }

    /// Update is idempotent: a second `update` with the same weights leaves
    /// the engine as the first left it, weights, matrix and history alike.
    pub proof fn lemma_update_idempotent(before: Self, once: Self, twice: Self, c: Coefficients)
        requires
            once.updated(before, c),
            twice.updated(once, c),
        ensures
            twice.coefficients() == once.coefficients(),
            twice.matrix() == once.matrix(),
            twice.history() == once.history(),
            twice == once,
    {
        assert forall|j: int| 0 <= j < 8 implies twice.cols[j] == once.cols[j] by {
            assert(matrix_view(twice.cols)[j] == matrix_view(once.cols)[j]);
            assert(twice.cols[j]@ == once.cols[j]@);
            assert(twice.cols[j] =~= once.cols[j]);
        }
        assert(twice.cols =~= once.cols);
    }

    /// The weights the engine runs with.
    pub fn weights(&self) -> (c: Coefficients)
        ensures
            c == self.coefficients(),
    {
        self.coeffs
    }

    /// The carried history.
    pub fn state(&self) -> (h: History)
        ensures
            h == self.history(),
    {
        self.carried
    }

    /// The stored weight of column `j` for output `k`: an entry of the
    /// linearization of the weights the engine runs with.
    pub fn weight(&self, j: usize, k: usize) -> (v: i32)
        requires
            j < 8,
            k < 4,
        ensures
            v == self.matrix()[j as int][k as int],
            v == linearized_matrix(self.coefficients(), 4)[j as int][k as int],
    {
        proof {
            use_type_invariant(self);
        }
        self.cols[j][k]
    }
}

} // verus!
