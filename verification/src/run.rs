//! Whole buffers through an engine: the scalar engine sample by sample, the
//! block engines block by block.
//!
//! Input and output are paired from the start. What either has beyond the
//! other is left alone, and so is a tail shorter than a block.
use vstd::prelude::*;
use crate::biquad_avx::BiQuadAVX;
use crate::biquad_i32::BiQuadI32;
use crate::biquad_sse2::BiQuadSSE2;
use crate::laws::lemma_run_concat;
use crate::recurrence::{history_after, run_history, run_outputs, step_history};

verus! {

/// The number of samples that a run in blocks of `w` takes from an input of
/// `input` samples and writes to an output of `output` samples.
pub open spec fn paired(input: nat, output: nat, w: nat) -> nat {
    let n = if input <= output {
        input
    } else {
        output
    };
    if w == 0 {
        0
    } else {
        ((n / w) * w) as nat
    }
}

/// The samples of `input` that a run in blocks of `w` takes.
pub open spec fn taken(input: Seq<i32>, output: Seq<i32>, w: nat) -> Seq<i32> {
    input.take(paired(input.len(), output.len(), w) as int)
}

/// The samples of `output` that a run in blocks of `w` leaves as they are.
pub open spec fn untouched(input: Seq<i32>, output: Seq<i32>, w: nat) -> Seq<i32> {
    output.skip(paired(input.len(), output.len(), w) as int)
}

/// With buffers of one length that is a multiple of the block width, a run
/// in blocks takes every sample, as a run sample by sample does: the block
/// engines then give, by the contracts below, what the scalar engine gives.
pub proof fn lemma_takes_all(input: Seq<i32>, output: Seq<i32>, w: nat)
    requires
        w > 0,
        input.len() == output.len(),
        input.len() % w == 0,
    ensures
        taken(input, output, w) == input,
        taken(input, output, 1) == input,
        untouched(input, output, w) == Seq::<i32>::empty(),
        untouched(input, output, 1) == Seq::<i32>::empty(),
{
    let len = input.len();
    vstd::arithmetic::div_mod::lemma_fundamental_div_mod(len as int, w as int);
    assert((len / w) * w == w * (len / w)) by (nonlinear_arith);
    assert(paired(len, len, w) == len);
    assert(paired(len, len, 1) == len);
    assert(input.take(len as int) =~= input);
    assert(output.skip(len as int) =~= Seq::<i32>::empty());
}

/// The `W` samples of `input` from position `at` on.
pub fn load<const W: usize>(input: &[i32], at: usize) -> (block: [i32; W])
    requires
        at + W <= input.len(),
    ensures
        block@ == input@.subrange(at as int, at + W),
{
    let mut block: [i32; W] = [0i32; W];
    let mut k: usize = 0;
    while k < W
        invariant
            k <= W,
            at + W <= input.len(),
            forall|i: int| 0 <= i < k ==> block[i] == input[at + i],
        decreases W - k,
    {
        block[k] = input[at + k];
        k = k + 1;
    }
    assert(block@ =~= input@.subrange(at as int, at + W));
    block
}

/// Writes the `W` samples of `block` over `output` from position `at` on.
pub fn store<const W: usize>(output: &mut Vec<i32>, at: usize, block: &[i32; W])
    requires
        at + W <= old(output).len(),
    ensures
        final(output)@ == old(output)@.take(at as int) + block@ + old(output)@.skip(at + W),
{
    let mut k: usize = 0;
    while k < W
        invariant
            k <= W,
            at + W <= output.len(),
            output.len() == old(output).len(),
            forall|i: int| 0 <= i < at ==> output[i] == old(output)[i],
            forall|i: int| 0 <= i < k ==> output[at + i] == block[i],
            forall|i: int| at + k <= i < output.len() ==> output[i] == old(output)[i],
        decreases W - k,
    {
        output.set(at + k, block[k]);
        k = k + 1;
    }
    assert(output@ =~= old(output)@.take(at as int) + block@ + old(output)@.skip(at + W));
}

/// Runs the scalar engine over `input`, one output for each sample.
pub fn run_i32(b: &mut BiQuadI32, input: &[i32], output: &mut Vec<i32>)
    ensures
        final(output)@ == run_outputs(
            old(b).coefficients(),
            old(b).history(),
            taken(input@, old(output)@, 1),
        ) + untouched(input@, old(output)@, 1),
        final(b).history() == run_history(
            old(b).coefficients(),
            old(b).history(),
            taken(input@, old(output)@, 1),
        ),
        final(b).coefficients() == old(b).coefficients(),
{
    let n = if input.len() <= output.len() {
        input.len()
    } else {
        output.len()
    };
    let ghost c = b.coefficients();
    let ghost h = b.history();
    let mut i: usize = 0;
    assert(run_outputs(c, h, input@.take(0)) + output@.skip(0) =~= output@);
    while i < n
        invariant
            i <= n,
            n <= input.len(),
            n <= output.len(),
            output.len() == old(output).len(),
            output@ == run_outputs(c, h, input@.take(i as int)) + old(output)@.skip(i as int),
            b.history() == run_history(c, h, input@.take(i as int)),
            b.coefficients() == c,
        decreases n - i,
    {
        let ghost before = b.history();
        let ghost so_far = output@;
        let y = b.process(input[i]);
        output.set(i, y);
        proof {
            let done = input@.take(i as int);
            let one = seq![input[i as int]];
            assert(done + one =~= input@.take(i + 1));
            lemma_run_concat(c, h, done, one);
            assert(history_after(c, before, one, 0) == before);
            assert(run_history(c, before, one) == step_history(c, before, one[0]));
            assert(run_outputs(c, before, one) =~= seq![y]);
            assert(output@ =~= run_outputs(c, h, input@.take(i + 1)) + old(output)@.skip(i + 1));
        }
        i = i + 1;
    }
}

/// Runs the width-four engine over `input`, four outputs for each whole
/// block of four samples.
pub fn run_sse2(b: &mut BiQuadSSE2, input: &[i32], output: &mut Vec<i32>)
    ensures
        final(output)@ == run_outputs(
            old(b).coefficients(),
            old(b).history(),
            taken(input@, old(output)@, 4),
        ) + untouched(input@, old(output)@, 4),
        final(b).history() == run_history(
            old(b).coefficients(),
            old(b).history(),
            taken(input@, old(output)@, 4),
        ),
        final(b).coefficients() == old(b).coefficients(),
{
    let shorter = if input.len() <= output.len() {
        input.len()
    } else {
        output.len()
    };
    let n = (shorter / 4) * 4;
    let ghost c = b.coefficients();
    let ghost h = b.history();
    let mut i: usize = 0;
    assert(run_outputs(c, h, input@.take(0)) + output@.skip(0) =~= output@);
    while i < n
        invariant
            i <= n,
            i % 4 == 0,
            n % 4 == 0,
            n <= input.len(),
            n <= output.len(),
            output.len() == old(output).len(),
            output@ == run_outputs(c, h, input@.take(i as int)) + old(output)@.skip(i as int),
            b.history() == run_history(c, h, input@.take(i as int)),
            b.coefficients() == c,
        decreases n - i,
    {
        let block = load::<4>(input, i);
        let y = b.process(block);
        store::<4>(output, i, &y);
        proof {
            let done = input@.take(i as int);
            assert(done + block@ =~= input@.take(i + 4));
            lemma_run_concat(c, h, done, block@);
            assert(output@ =~= run_outputs(c, h, input@.take(i + 4)) + old(output)@.skip(i + 4));
        }
        i = i + 4;
    }
}

/// Runs the width-eight engine over `input`, eight outputs for each whole
/// block of eight samples.
pub fn run_avx(b: &mut BiQuadAVX, input: &[i32], output: &mut Vec<i32>)
    ensures
        final(output)@ == run_outputs(
            old(b).coefficients(),
            old(b).history(),
            taken(input@, old(output)@, 8),
        ) + untouched(input@, old(output)@, 8),
        final(b).history() == run_history(
            old(b).coefficients(),
            old(b).history(),
            taken(input@, old(output)@, 8),
        ),
        final(b).coefficients() == old(b).coefficients(),
{
    let shorter = if input.len() <= output.len() {
        input.len()
    } else {
        output.len()
    };
    let n = (shorter / 8) * 8;
    let ghost c = b.coefficients();
    let ghost h = b.history();
    let mut i: usize = 0;
    assert(run_outputs(c, h, input@.take(0)) + output@.skip(0) =~= output@);
    while i < n
        invariant
            i <= n,
            i % 8 == 0,
            n % 8 == 0,
            n <= input.len(),
            n <= output.len(),
            output.len() == old(output).len(),
            output@ == run_outputs(c, h, input@.take(i as int)) + old(output)@.skip(i as int),
            b.history() == run_history(c, h, input@.take(i as int)),
            b.coefficients() == c,
        decreases n - i,
    {
        let block = load::<8>(input, i);
        let y = b.process(block);
        store::<8>(output, i, &y);
        proof {
            let done = input@.take(i as int);
            assert(done + block@ =~= input@.take(i + 8));
            lemma_run_concat(c, h, done, block@);
            assert(output@ =~= run_outputs(c, h, input@.take(i + 8)) + old(output)@.skip(i + 8));
        }
        i = i + 8;
    }
}

} // verus!
