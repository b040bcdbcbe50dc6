//! Recursive (biquad) filters over 32-bit integer lanes with wrap-around
//! arithmetic, in a scalar form and in two block forms that compute four or
//! eight consecutive outputs from one linear combination.
//!
//! Wrap-around arithmetic on fixed-width integers is a ring, so the block
//! engines agree with the scalar recurrence exactly; the agreement is proved
//! here rather than tested.
pub mod lane;
pub mod recurrence;
pub mod linearize;
pub mod block;
pub mod biquad_i32;
pub mod biquad_sse2;
pub mod biquad_avx;
pub mod denormal;
pub mod laws;
pub mod run;

pub use crate::denormal::{FlushMode, ScopedFlushDenormals};
