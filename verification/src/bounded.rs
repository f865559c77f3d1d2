//! Bounded magnitudes: non-negative integers kept below a configured ceiling.
//!
//! The ceiling is explicit configuration, threaded through generation by the
//! caller; a ceiling of zero is a configuration error that callers reject
//! before generating, so generation requires a positive ceiling.

use vstd::prelude::*;

verus! {

/// A non-negative magnitude (an offset or a length) for one file operation.
///
/// Freshly generated values lie below the generation ceiling; values built
/// with [`BoundedUsize::new`] carry the literal given, which lets a captured
/// regression case restate its magnitudes exactly.
#[derive(Clone, Copy, Debug, PartialEq, Eq, Structural)]
pub struct BoundedUsize(usize);

impl View for BoundedUsize {
    type V = nat;

    closed spec fn view(&self) -> nat {
        self.0 as nat
    }
}

impl BoundedUsize {
    /// Wrap a literal magnitude, as a regression case does.
    pub fn new(val: usize) -> (r: Self)
        ensures
            r@ == val,
    {
        Self(val)
    }

    /// The magnitude itself.
    pub fn value(&self) -> (r: usize)
        ensures
            r == self@,
    {
        self.0
    }

    /// Draw a fresh magnitude below `ceiling` from the random source.
    pub fn generate(ceiling: usize) -> (r: Self)
        requires
            ceiling > 0,
        ensures
            r@ < ceiling,
    {
        Self(crate::rng::random_usize() % ceiling)
    }

    /// Candidates strictly simpler than this value, toward zero: first zero
    /// itself, then the value lessened by ever smaller halves. A value of
    /// zero has no candidates. Every candidate stays under any ceiling the
    /// value itself respects.
    pub fn shrink(&self) -> (r: Vec<BoundedUsize>)
        ensures
            forall|i: int| 0 <= i < r@.len() ==> #[trigger] r@[i]@ < self@,
            self@ == 0 <==> r@.len() == 0,
    {
        let mut out: Vec<BoundedUsize> = Vec::new();
        if self.0 == 0 {
            return out;
        }
        out.push(BoundedUsize(0));
        let mut step: usize = self.0 / 2;
        while step > 0
            invariant
                step <= self.0 / 2,
                self.0 > 0,
                forall|i: int| 0 <= i < out@.len() ==> #[trigger] out@[i]@ < self@,
                out@.len() > 0,
            decreases step,
        {
            out.push(BoundedUsize(self.0 - step));
            step = step / 2;
        }
        out
    }
}

} // verus!
