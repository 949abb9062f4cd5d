//! The evaluator's error type.
//!
//! Input is assumed to have passed a separate static checking pass, so every
//! dynamic mismatch is an internal invariant violation rather than a
//! recoverable user error. Violations are reported as values instead of
//! aborting, so that callers can report a checker/evaluator contract breach.

use vstd::prelude::*;

verus! {

#[derive(Clone, Copy, Debug, PartialEq, Eq, Structural)]
pub enum EvalError {
    /// A dynamic mismatch that checked input can never produce: an unbound
    /// variable, an application of a non-lambda, a type application of a
    /// non-abstraction, a non-boolean condition, a pattern matched against a
    /// value of the wrong shape, or a tuple pattern whose arity differs from
    /// the tuple value's.
    InvariantViolation,
    /// The explicit recursion budget ran out before evaluation finished.
    OutOfFuel,
}

} // verus!
