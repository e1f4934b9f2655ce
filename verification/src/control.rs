//! A cooperative, non-error termination channel for the relay pipeline.
//!
//! Several stages of a relay may stop the run cleanly (an empty signed
//! pool, a stale nonce, an arithmetic value out of the 256-bit range).
//! Such an outcome is not an error: it is modelled as `Halt::Halted`.

use vstd::prelude::*;

verus! {

/// Outcome of a pipeline stage: either a value to carry forward, or a
/// clean stop of the whole run.
pub enum Halt<T> {
    /// The stage produced a value; the pipeline goes on.
    Proceed(T),
    /// The stage stopped the run cleanly.
    Halted,
}

impl<T> Halt<T> {
    /// Extract the carried value; callers must know the stage proceeded.
    pub fn proceed(self) -> (r: T)
        requires
            self is Proceed,
        ensures
            self == Halt::Proceed(r),
    {
        match self {
            Halt::Proceed(t) => t,
            Halt::Halted => vstd::pervasive::unreached(),
        }
    }

    /// Whether the stage proceeded.
    pub fn is_proceed(&self) -> (r: bool)
        ensures
            r == (*self is Proceed),
    {
        match self {
            Halt::Proceed(_) => true,
            Halt::Halted => false,
        }
    }
}

} // verus!
