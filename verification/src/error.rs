//! The failure kinds of the checker.
//!
//! Every precondition of the instruction machine is hard: the first broken
//! one stops the run with the kind that describes it.  The machine never
//! recovers and never returns a partial result.

use vstd::prelude::*;

verus! {

/// Why a run of the checker was rejected.
#[derive(Debug, Clone, Copy, PartialEq, Eq, Structural)]
pub enum CheckError {
    /// A pop or peek found the stack empty.
    StackUnderflow,
    /// A stack or memory cell carried the wrong tag, or an inference rule
    /// found a pattern of the wrong shape where it expected an implication.
    TagMismatch,
    /// An opcode byte outside the instruction table, or a reserved opcode.
    UnknownOpcode,
    /// The stream ended where an immediate byte was expected.
    TruncatedStream,
    /// A constructed pattern broke its local well-formedness condition:
    /// a meta-variable whose freshness set meets its context holes, a Mu
    /// whose body is not positive in the bound variable, or a pending
    /// substitution applied to a concrete head.
    IllFormedConstruction,
    /// A meta-variable was plugged with a pattern that breaks one of its
    /// constraints, or fewer plugs were supplied than the ids demand.
    InstantiationConstraintBroken,
    /// Modus ponens applied to premises that do not match.
    ModusPonensMismatch,
    /// Generalization over a conclusion in which the binder occurs free.
    GeneralizationNotFresh,
    /// A published theorem differs from the claim it should discharge, or
    /// there was no claim left to discharge.
    ClaimMismatch,
    /// A memory index outside the memory.
    MemoryOutOfRange,
    /// The proof phase ended with claims still in the queue.
    UndischargedClaims,
}

} // verus!
