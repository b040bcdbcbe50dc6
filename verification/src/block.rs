//! What the block engines share: lane-wise vector operations, the column
//! space of a block, and the application of a stored matrix to it.
use vstd::prelude::*;
use crate::lane::{
    congruent, lane_add, lane_mul_add, lemma_congruent_add, lemma_congruent_mul,
    lemma_congruent_wrap, lemma_wrap_congruent, wrap,
};
use crate::linearize::{
    entry, exact_mix, lemma_history_after, lemma_linearized_row_is_output, linearized_column,
    slot,
};
use crate::recurrence::{output_at, run_history, run_outputs, Coefficients, History};

verus! {

/// The linearized matrix for width `w` as the engines store it: one vector
/// for each of the `w + 4` columns, lane `k` of it the weight that feeds
/// output `k`.
pub open spec fn linearized_matrix(c: Coefficients, w: int) -> Seq<Seq<i32>> {
    Seq::new((w + 4) as nat, |j: int| Seq::new(w as nat, |k: int| wrap(entry(c, w, k, j))))
}

/// The column vectors of a stored matrix.
pub open spec fn matrix_view<const W: usize, const N: usize>(cols: [[i32; W]; N]) -> Seq<Seq<i32>> {
    Seq::new(N as nat, |j: int| cols[j]@)
}

/// Lane `k` of the first `n` column vectors, each weighted by its slot.
pub open spec fn stored_mix(cols: Seq<Seq<i32>>, slots: Seq<i32>, k: int, n: int) -> int
    decreases n,
{
    if n <= 0 {
        0
    } else {
        stored_mix(cols, slots, k, n - 1) + cols[n - 1][k] * slots[n - 1]
    }
}

/// Every lane of `c` times the one value `v`, added to `acc`.
pub fn broadcast_mul_add<const W: usize>(c: &[i32; W], v: i32, acc: &[i32; W]) -> (r: [i32; W])
    ensures
        forall|k: int| 0 <= k < W ==> r[k] == wrap(c[k] * v + acc[k]),
{
    let mut r: [i32; W] = *acc;
    let mut k: usize = 0;
    while k < W
        invariant
            k <= W,
            forall|i: int| 0 <= i < k ==> r[i] == wrap(c[i] * v + acc[i]),
            forall|i: int| k <= i < W ==> r[i] == acc[i],
        decreases W - k,
    {
        r[k] = lane_mul_add(c[k], v, acc[k]);
        k = k + 1;
    }
    r
}

/// The lane-wise sum of two vectors.
pub fn lanes_add<const W: usize>(a: &[i32; W], b: &[i32; W]) -> (r: [i32; W])
    ensures
        forall|k: int| 0 <= k < W ==> r[k] == wrap(a[k] + b[k]),
{
    let mut r: [i32; W] = *a;
    let mut k: usize = 0;
    while k < W
        invariant
            k <= W,
            forall|i: int| 0 <= i < k ==> r[i] == wrap(a[i] + b[i]),
            forall|i: int| k <= i < W ==> r[i] == a[i],
        decreases W - k,
    {
        r[k] = lane_add(a[k], b[k]);
        k = k + 1;
    }
    r
}

/// The stored matrix for the coefficients `c`: every column by forward
/// substitution.
pub fn derive_matrix<const W: usize, const N: usize>(c: &Coefficients) -> (cols: [[i32; W]; N])
    requires
        N == W + 4,
    ensures
        matrix_view(cols) == linearized_matrix(*c, W as int),
{
    let mut cols: [[i32; W]; N] = [[0i32; W]; N];
    let mut j: usize = 0;
    while j < N
        invariant
            j <= N == W + 4,
            forall|i: int, k: int|
                0 <= i < j && 0 <= k < W ==> #[trigger] cols[i][k] == wrap(
                    entry(*c, W as int, k, i),
                ),
        decreases N - j,
    {
        let col = linearized_column::<W>(c, j);
        cols[j] = col;
        j = j + 1;
    }
    proof {
        let m = matrix_view(cols);
        let l = linearized_matrix(*c, W as int);
        assert forall|i: int| 0 <= i < N implies m[i] == l[i] by {
            assert forall|k: int| 0 <= k < W implies m[i][k] == l[i][k] by {
                assert(cols[i][k] == wrap(entry(*c, W as int, k, i)));
            }
            assert(m[i] =~= l[i]);
        }
        assert(m =~= l);
    }
    cols
}

/// The column space for the block `input` after history `h`: the block's
/// samples from the newest to the oldest, then the carried inputs and outputs.
pub fn gather<const W: usize, const N: usize>(h: &History, input: &[i32; W]) -> (slots: [i32; N])
    requires
        N == W + 4,
    ensures
        forall|j: int| 0 <= j < N ==> slots[j] == slot(*h, input@, W as int, j),
{
    let mut slots: [i32; N] = [0i32; N];
    let mut j: usize = 0;
    while j < W
        invariant
            j <= W,
            N == W + 4,
            forall|i: int| 0 <= i < j ==> slots[i] == slot(*h, input@, W as int, i),
        decreases W - j,
    {
        slots[j] = input[W - 1 - j];
        j = j + 1;
    }
    slots[W] = h.xm1;
    slots[W + 1] = h.xm2;
    slots[W + 2] = h.ym1;
    slots[W + 3] = h.ym2;
    slots
}

/// The stored matrix applied to the column space, one column after another
/// into a single accumulator.
pub fn combine<const W: usize, const N: usize>(cols: &[[i32; W]; N], slots: &[i32; N]) -> (y: [
    i32;
    W
])
    ensures
        forall|k: int|
            0 <= k < W ==> y[k] == wrap(stored_mix(matrix_view(*cols), slots@, k, N as int)),
{
    let mut y: [i32; W] = [0i32; W];
    let mut j: usize = 0;
    while j < N
        invariant
            j <= N,
            forall|k: int|
                0 <= k < W ==> y[k] == wrap(stored_mix(matrix_view(*cols), slots@, k, j as int)),
        decreases N - j,
    {
        let next = broadcast_mul_add(&cols[j], slots[j], &y);
        proof {
            assert forall|k: int| 0 <= k < W implies next[k] == wrap(
                stored_mix(matrix_view(*cols), slots@, k, j + 1),
            ) by {
                lemma_accumulate(matrix_view(*cols), slots@, k, j as int, y[k] as int, 0);
            }
        }
        y = next;
        j = j + 1;
    }
    y
}

/// The stored matrix applied to the column space with two accumulators, the
/// even columns into one and the odd columns into the other, summed at the
/// end. In lane arithmetic the order of summation makes no difference.
pub fn combine_interleaved<const W: usize, const N: usize>(
    cols: &[[i32; W]; N],
    slots: &[i32; N],
) -> (y: [i32; W])
    ensures
        forall|k: int|
            0 <= k < W ==> y[k] == wrap(stored_mix(matrix_view(*cols), slots@, k, N as int)),
{
    let mut y1: [i32; W] = [0i32; W];
    let mut y2: [i32; W] = [0i32; W];
    let mut j: usize = 0;
    while j < N
        invariant
            j <= N,
            forall|k: int|
                0 <= k < W ==> wrap(y1[k] + y2[k]) == wrap(
                    stored_mix(matrix_view(*cols), slots@, k, j as int),
                ),
        decreases N - j,
    {
        if j % 2 == 0 {
            let next = broadcast_mul_add(&cols[j], slots[j], &y1);
            proof {
                assert forall|k: int| 0 <= k < W implies wrap(next[k] + y2[k]) == wrap(
                    stored_mix(matrix_view(*cols), slots@, k, j + 1),
                ) by {
                    lemma_accumulate(
                        matrix_view(*cols),
                        slots@,
                        k,
                        j as int,
                        y1[k] as int,
                        y2[k] as int,
                    );
                }
            }
            y1 = next;
        } else {
            let next = broadcast_mul_add(&cols[j], slots[j], &y2);
            proof {
                assert forall|k: int| 0 <= k < W implies wrap(y1[k] + next[k]) == wrap(
                    stored_mix(matrix_view(*cols), slots@, k, j + 1),
                ) by {
                    lemma_accumulate(
                        matrix_view(*cols),
                        slots@,
                        k,
                        j as int,
                        y2[k] as int,
                        y1[k] as int,
                    );
                }
            }
            y2 = next;
        }
        j = j + 1;
    }
    lanes_add(&y1, &y2)
}

/// One more column into an accumulator: if `acc + rest` stands for the first
/// `j` columns, then with column `j` multiplied and added into `acc` the sum
/// stands for the first `j + 1`.
pub proof fn lemma_accumulate(
    cols: Seq<Seq<i32>>,
    slots: Seq<i32>,
    k: int,
    j: int,
    acc: int,
    rest: int,
)
    requires
        0 <= j,
        wrap(acc + rest) == wrap(stored_mix(cols, slots, k, j)),
    ensures
        wrap(wrap(cols[j][k] * slots[j] + acc) + rest) == wrap(stored_mix(cols, slots, k, j + 1)),
{
    let term = cols[j][k] * slots[j];
    let before = stored_mix(cols, slots, k, j);
    lemma_congruent_wrap(acc + rest, before);
    lemma_wrap_congruent(term + acc);
    assert(congruent(wrap(term + acc) + rest, before + term));
    lemma_congruent_wrap(wrap(term + acc) + rest, before + term);
}

/// A stored linearized matrix applied to the column space of a block agrees,
/// lane by lane, with the integer matrix applied to it.
pub proof fn lemma_stored_mix_exact(
    c: Coefficients,
    h: History,
    xs: Seq<i32>,
    w: int,
    slots: Seq<i32>,
    k: int,
    n: int,
)
    requires
        0 <= k < w,
        0 <= n <= w + 4,
        slots.len() == w + 4,
        forall|j: int| 0 <= j < w + 4 ==> slots[j] == slot(h, xs, w, j),
    ensures
        congruent(stored_mix(linearized_matrix(c, w), slots, k, n), exact_mix(c, h, xs, w, k, n)),
    decreases n,
{
    if n > 0 {
        lemma_stored_mix_exact(c, h, xs, w, slots, k, n - 1);
        let stored = linearized_matrix(c, w)[n - 1][k];
        let e = entry(c, w, k, n - 1);
        let v = slot(h, xs, w, n - 1);
        assert(stored == wrap(e));
        lemma_wrap_congruent(e);
        lemma_congruent_mul(stored as int, e, slots[n - 1] as int, v);
        lemma_congruent_add(
            stored_mix(linearized_matrix(c, w), slots, k, n - 1),
            exact_mix(c, h, xs, w, k, n - 1),
            stored * slots[n - 1],
            e * v,
        );
    }
}

/// The stored matrix computes the recurrence: lane `k` of the linearized
/// matrix applied to the column space of the block `xs` after history `h` is
/// output `k` of the recurrence run sample by sample over `xs` from `h`.
pub proof fn lemma_matrix_computes_recurrence(
    c: Coefficients,
    h: History,
    xs: Seq<i32>,
    w: int,
    slots: Seq<i32>,
    k: int,
)
    requires
        0 <= k < w,
        slots.len() == w + 4,
        forall|j: int| 0 <= j < w + 4 ==> slots[j] == slot(h, xs, w, j),
    ensures
        wrap(stored_mix(linearized_matrix(c, w), slots, k, w + 4)) == output_at(c, h, xs, k as nat),
{
    lemma_stored_mix_exact(c, h, xs, w, slots, k, w + 4);
    lemma_congruent_wrap(
        stored_mix(linearized_matrix(c, w), slots, k, w + 4),
        exact_mix(c, h, xs, w, k, w + 4),
    );
    lemma_linearized_row_is_output(c, h, xs, w, k);
}

/// One block through a stored linearized matrix: the outputs of the
/// recurrence for the samples of `input` after history `h`, and the history
/// they leave. With `interleaved` the columns are summed in two halves.
pub fn process_block<const W: usize, const N: usize>(
    c: &Coefficients,
    cols: &[[i32; W]; N],
    h: &History,
    input: &[i32; W],
    interleaved: bool,
) -> (r: ([i32; W], History))
    requires
        2 <= W,
        N == W + 4,
        matrix_view(*cols) == linearized_matrix(*c, W as int),
    ensures
        r.0@ == run_outputs(*c, *h, input@),
        r.1 == run_history(*c, *h, input@),
{
    let slots: [i32; N] = gather(h, input);
    let y = if interleaved {
        combine_interleaved(cols, &slots)
    } else {
        combine(cols, &slots)
    };
    let next = History { xm1: input[W - 1], xm2: input[W - 2], ym1: y[W - 1], ym2: y[W - 2] };
    proof {
        assert forall|k: int| 0 <= k < W implies y[k] == output_at(*c, *h, input@, k as nat) by {
            lemma_matrix_computes_recurrence(*c, *h, input@, W as int, slots@, k);
        }
        assert(y@ =~= run_outputs(*c, *h, input@));
        lemma_history_after(*c, *h, input@, W as nat);
    }
    (y, next)
}

} // verus!
