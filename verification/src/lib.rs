//! A proof checker for matching-logic Hilbert-style proofs.
//!
//! The checker consumes three byte streams — a theory, a claim list and a
//! proof — and either accepts (every claim discharged by a proved
//! conclusion) or reports an error.  Patterns are built, combined and
//! substituted by a stack-oriented instruction machine whose exact
//! semantics is given by spec functions, and the executable engine is
//! proved to follow them.

pub mod engine;
pub mod error;
pub mod laws;
pub mod machine;
pub mod pattern;
pub mod subst;

pub use error::CheckError;
pub use pattern::Id;
pub use pattern::Pattern;
pub use pattern::SpecPattern;
pub use pattern::{
    app, bot, esubst, evar, exists_pat, forall_pat, metavar_s_fresh,
    metavar_unconstrained, mu, not, pattern_eq, ssubst, svar, symbol,
};
pub use engine::{
    execute_instructions, execute_vector, pop_stack, pop_stack_pattern, pop_stack_proved,
    read_u8_vec, serialize_metavar, verify,
};
pub use machine::{Claims, Entry, ExecutionPhase, Instruction, Memory, Stack, Term};
pub use subst::{apply_esubst, apply_ssubst, instantiate};
