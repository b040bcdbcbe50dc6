//! The flush-to-zero mode of a thread's floating-point unit, as a value, and
//! the guard that switches it.
//!
//! The library holds no floating-point state of its own. The caller keeps the
//! mode it has last given to the hardware in a `FlushMode`, lets the guard
//! change that value, and gives the result to the hardware after each call.
use vstd::prelude::*;

verus! {

/// Whether results too small for the normal range are rounded to zero.
#[derive(Clone, Copy, Debug, PartialEq, Eq, Structural)]
pub enum FlushMode {
    Off,
    On,
}

/// The mode once a guard has been acquired, whatever it was before.
pub open spec fn entered(before: FlushMode) -> FlushMode {
    FlushMode::On
}

/// The mode once a guard has been released, whatever it was before. The mode
/// that held when the guard was acquired is not brought back.
pub open spec fn released(before: FlushMode) -> FlushMode {
    FlushMode::Off
}

/// A guard that holds flush-to-zero on from `new` to `release`.
///
/// The guard is not reentrant: it keeps no record of the mode it found, and
/// its release turns the mode off even where another guard, acquired
/// earlier, has not been released yet.
#[derive(Debug)]
pub struct ScopedFlushDenormals {
    _hidden: (),
}

impl ScopedFlushDenormals {
    /// Acquires the guard and turns the mode on.
    pub fn new(mode: &mut FlushMode) -> (guard: Self)
        ensures
            *final(mode) == entered(*old(mode)),
    {
        *mode = FlushMode::On;
        ScopedFlushDenormals { _hidden: () }
    }

    /// Gives the guard up and turns the mode off.
    pub fn release(self, mode: &mut FlushMode)
        ensures
            *final(mode) == released(*old(mode)),
    {
        *mode = FlushMode::Off;
    }
}

/// From a thread whose mode is off, the mode is on while the guard is held
/// and off again once it is released.
pub proof fn lemma_guard_scopes_mode(before: FlushMode)
    requires
        before == FlushMode::Off,
    ensures
        entered(before) == FlushMode::On,
        released(entered(before)) == before,
{
}

/// Guards do not nest: with two guards acquired, the release of the inner
/// one leaves the mode off while the outer one is still held.
pub proof fn lemma_guard_not_reentrant(before: FlushMode)
    ensures
        released(entered(entered(before))) == FlushMode::Off,
{
}

} // verus!
