//! The instruction machine: the wire opcodes, the typed stack and memory
//! cells, and the exact semantics of a phase run, given as a spec
//! function over byte sequences.

use vstd::prelude::*;
use std::rc::Rc;

use crate::error::CheckError;
use crate::pattern::{pat_view, Id, Pattern, SpecPattern};
use crate::subst::pats_view;

verus! {

/// The on-the-wire instruction alphabet.
#[derive(Debug, Clone, Copy, PartialEq, Eq)]
pub enum Instruction {
    // Patterns
    EVar,
    SVar,
    Symbol,
    Implication,
    Application,
    Exists,
    Mu,
    // Meta patterns
    MetaVar,
    ESubst,
    SSubst,
    // Axiom schemas
    Prop1,
    Prop2,
    Prop3,
    Quantifier,
    PropagationOr,
    PropagationExists,
    PreFixpoint,
    Existence,
    Singleton,
    // Inference rules
    ModusPonens,
    Generalization,
    Frame,
    Substitution,
    KnasterTarski,
    // Meta inference rules
    Instantiate,
    // Stack manipulation
    Pop,
    // Memory manipulation
    Save,
    Load,
    // Journal manipulation
    Publish,
}

/// The instruction a wire byte decodes to, if any.
pub open spec fn spec_from_byte(value: u8) -> Option<Instruction> {
    match value {
        2u8 => Some(Instruction::EVar),
        3u8 => Some(Instruction::SVar),
        4u8 => Some(Instruction::Symbol),
        5u8 => Some(Instruction::Implication),
        6u8 => Some(Instruction::Application),
        7u8 => Some(Instruction::Mu),
        8u8 => Some(Instruction::Exists),
        9u8 => Some(Instruction::MetaVar),
        10u8 => Some(Instruction::ESubst),
        11u8 => Some(Instruction::SSubst),
        12u8 => Some(Instruction::Prop1),
        13u8 => Some(Instruction::Prop2),
        14u8 => Some(Instruction::Prop3),
        15u8 => Some(Instruction::Quantifier),
        16u8 => Some(Instruction::PropagationOr),
        17u8 => Some(Instruction::PropagationExists),
        18u8 => Some(Instruction::PreFixpoint),
        19u8 => Some(Instruction::Existence),
        20u8 => Some(Instruction::Singleton),
        21u8 => Some(Instruction::ModusPonens),
        22u8 => Some(Instruction::Generalization),
        23u8 => Some(Instruction::Frame),
        24u8 => Some(Instruction::Substitution),
        25u8 => Some(Instruction::KnasterTarski),
        26u8 => Some(Instruction::Instantiate),
        27u8 => Some(Instruction::Pop),
        28u8 => Some(Instruction::Save),
        29u8 => Some(Instruction::Load),
        30u8 => Some(Instruction::Publish),
        _ => None,
    }
}

impl Instruction {
    /// Decode one wire byte.
    pub fn from_byte(value: u8) -> (r: Option<Instruction>)
        ensures
            r == spec_from_byte(value),
    {
        match value {
            2u8 => Some(Instruction::EVar),
            3u8 => Some(Instruction::SVar),
            4u8 => Some(Instruction::Symbol),
            5u8 => Some(Instruction::Implication),
            6u8 => Some(Instruction::Application),
            7u8 => Some(Instruction::Mu),
            8u8 => Some(Instruction::Exists),
            9u8 => Some(Instruction::MetaVar),
            10u8 => Some(Instruction::ESubst),
            11u8 => Some(Instruction::SSubst),
            12u8 => Some(Instruction::Prop1),
            13u8 => Some(Instruction::Prop2),
            14u8 => Some(Instruction::Prop3),
            15u8 => Some(Instruction::Quantifier),
            16u8 => Some(Instruction::PropagationOr),
            17u8 => Some(Instruction::PropagationExists),
            18u8 => Some(Instruction::PreFixpoint),
            19u8 => Some(Instruction::Existence),
            20u8 => Some(Instruction::Singleton),
            21u8 => Some(Instruction::ModusPonens),
            22u8 => Some(Instruction::Generalization),
            23u8 => Some(Instruction::Frame),
            24u8 => Some(Instruction::Substitution),
            25u8 => Some(Instruction::KnasterTarski),
            26u8 => Some(Instruction::Instantiate),
            27u8 => Some(Instruction::Pop),
            28u8 => Some(Instruction::Save),
            29u8 => Some(Instruction::Load),
            30u8 => Some(Instruction::Publish),
            _ => None,
        }
    }

    /// The wire byte of the instruction, the inverse of `from_byte`.
    pub fn to_byte(self) -> (b: u8)
        ensures
            spec_from_byte(b) == Some(self),
    {
        match self {
            Instruction::EVar => 2,
            Instruction::SVar => 3,
            Instruction::Symbol => 4,
            Instruction::Implication => 5,
            Instruction::Application => 6,
            Instruction::Mu => 7,
            Instruction::Exists => 8,
            Instruction::MetaVar => 9,
            Instruction::ESubst => 10,
            Instruction::SSubst => 11,
            Instruction::Prop1 => 12,
            Instruction::Prop2 => 13,
            Instruction::Prop3 => 14,
            Instruction::Quantifier => 15,
            Instruction::PropagationOr => 16,
            Instruction::PropagationExists => 17,
            Instruction::PreFixpoint => 18,
            Instruction::Existence => 19,
            Instruction::Singleton => 20,
            Instruction::ModusPonens => 21,
            Instruction::Generalization => 22,
            Instruction::Frame => 23,
            Instruction::Substitution => 24,
            Instruction::KnasterTarski => 25,
            Instruction::Instantiate => 26,
            Instruction::Pop => 27,
            Instruction::Save => 28,
            Instruction::Load => 29,
            Instruction::Publish => 30,
        }
    }
}

/// A stack cell: a built pattern, or the conclusion of something proved.
#[derive(Debug, Clone, PartialEq, Eq)]
pub enum Term {
    Pattern(Rc<Pattern>),
    Proved(Rc<Pattern>),
}

/// A memory cell, with the same two tags as a stack cell.
#[derive(Debug, PartialEq, Eq)]
pub enum Entry {
    Pattern(Rc<Pattern>),
    Proved(Rc<Pattern>),
}

/// The model of a stack cell.
pub enum SpecTerm {
    Pattern(SpecPattern),
    Proved(SpecPattern),
}

/// The model of a memory cell.
pub enum SpecEntry {
    Pattern(SpecPattern),
    Proved(SpecPattern),
}

impl View for Term {
    type V = SpecTerm;

    open spec fn view(&self) -> SpecTerm {
        match self {
            Term::Pattern(p) => SpecTerm::Pattern(pat_view(**p)),
            Term::Proved(p) => SpecTerm::Proved(pat_view(**p)),
        }
    }
}

impl View for Entry {
    type V = SpecEntry;

    open spec fn view(&self) -> SpecEntry {
        match self {
            Entry::Pattern(p) => SpecEntry::Pattern(pat_view(**p)),
            Entry::Proved(p) => SpecEntry::Proved(pat_view(**p)),
        }
    }
}

pub type Stack = Vec<Term>;

pub type Claims = Vec<Rc<Pattern>>;

pub type Memory = Vec<Entry>;

/// The three phases of a run.  `Publish` is the one phase-dependent
/// instruction: it emits an axiom, a claim, or a discharge.
#[derive(Debug, Clone, Copy, PartialEq, Eq)]
pub enum ExecutionPhase {
    Gamma,
    Claim,
    Proof,
}

/// The model of the machine state: the typed stack, the memory, the claim
/// queue and the axiom pool.
pub struct SpecState {
    pub stack: Seq<SpecTerm>,
    pub memory: Seq<SpecEntry>,
    pub claims: Seq<SpecPattern>,
    pub axioms: Seq<SpecEntry>,
}

/// The model of a stack.
pub open spec fn stack_view(s: Seq<Term>) -> Seq<SpecTerm> {
    s.map_values(|t: Term| t@)
}

/// The model of a memory.
pub open spec fn mem_view(s: Seq<Entry>) -> Seq<SpecEntry> {
    s.map_values(|e: Entry| e@)
}

/// The machine state a stack, a memory, a claim queue and an axiom pool
/// model together.
pub open spec fn st_of(
    stack: Seq<Term>,
    memory: Seq<Entry>,
    claims: Seq<Rc<Pattern>>,
    axioms: Seq<Entry>,
) -> SpecState {
    SpecState {
        stack: stack_view(stack),
        memory: mem_view(memory),
        claims: pats_view(claims),
        axioms: mem_view(axioms),
    }
}

/// Pop the stack top.
pub open spec fn spec_pop_term(stack: Seq<SpecTerm>) -> Result<
    (SpecTerm, Seq<SpecTerm>),
    CheckError,
> {
    if stack.len() == 0 {
        Err(CheckError::StackUnderflow)
    } else {
        Ok((stack.last(), stack.drop_last()))
    }
}

/// Pop the stack top, which must carry the `Pattern` tag.
pub open spec fn spec_pop_pattern(stack: Seq<SpecTerm>) -> Result<
    (SpecPattern, Seq<SpecTerm>),
    CheckError,
> {
    match spec_pop_term(stack) {
        Err(e) => Err(e),
        Ok((SpecTerm::Pattern(p), rest)) => Ok((p, rest)),
        Ok((SpecTerm::Proved(_), rest)) => Err(CheckError::TagMismatch),
    }
}

/// Pop the stack top, which must carry the `Proved` tag.
pub open spec fn spec_pop_proved(stack: Seq<SpecTerm>) -> Result<
    (SpecPattern, Seq<SpecTerm>),
    CheckError,
> {
    match spec_pop_term(stack) {
        Err(e) => Err(e),
        Ok((SpecTerm::Proved(p), rest)) => Ok((p, rest)),
        Ok((SpecTerm::Pattern(_), rest)) => Err(CheckError::TagMismatch),
    }
}

/// Read one length-prefixed id list from the front of the stream:
/// the list and the remaining stream, or nothing when the stream is too
/// short.
pub open spec fn spec_read_list(s: Seq<u8>) -> Option<(Seq<Id>, Seq<u8>)> {
    if s.len() < 1 {
        None
    } else {
        let n = s[0] as int;
        if s.len() < 1 + n {
            None
        } else {
            Some((s.subrange(1, 1 + n), s.skip(1 + n)))
        }
    }
}

/// The top `n` stack cells all carry the `Pattern` tag.
pub open spec fn spec_pops_are_patterns(stack: Seq<SpecTerm>, n: int) -> bool {
    stack.len() >= n && forall|k: int|
        0 <= k < n ==> (#[trigger] stack[stack.len() - 1 - k]) is Pattern
}

/// The patterns of the top `n` stack cells, topmost first.
pub open spec fn spec_top_patterns(stack: Seq<SpecTerm>, n: int) -> Seq<SpecPattern> {
    Seq::new(
        n as nat,
        |k: int|
            match stack[stack.len() - 1 - k] {
                SpecTerm::Pattern(p) => p,
                SpecTerm::Proved(p) => p,
            },
    )
}

/// The failure that the interleaved read-one-id / pop-one-plug loop of
/// the Instantiate instruction hits first, when one exists.
pub open spec fn spec_args_error(body: Seq<u8>, stack: Seq<SpecTerm>, n: int) -> CheckError
    decreases n,
{
    if n <= 0 {
        CheckError::TruncatedStream
    } else if body.len() == 0 {
        CheckError::TruncatedStream
    } else if stack.len() == 0 {
        CheckError::StackUnderflow
    } else if !(stack.last() is Pattern) {
        CheckError::TagMismatch
    } else {
        spec_args_error(body.skip(1), stack.drop_last(), n - 1)
    }
}

/// ϕₙ: the unconstrained meta-variable with id `n`.
pub open spec fn spec_phi(n: Id) -> SpecPattern {
    SpecPattern::metavar_unconstrained(n)
}

/// The schema ϕ₀ → (ϕ₁ → ϕ₀).
pub open spec fn spec_prop1() -> SpecPattern {
    SpecPattern::implies(
        spec_phi(0),
        SpecPattern::implies(spec_phi(1), spec_phi(0)),
    )
}

/// The schema (ϕ₀ → (ϕ₁ → ϕ₂)) → ((ϕ₀ → ϕ₁) → (ϕ₀ → ϕ₂)).
pub open spec fn spec_prop2() -> SpecPattern {
    SpecPattern::implies(
        SpecPattern::implies(spec_phi(0), SpecPattern::implies(spec_phi(1), spec_phi(2))),
        SpecPattern::implies(
            SpecPattern::implies(spec_phi(0), spec_phi(1)),
            SpecPattern::implies(spec_phi(0), spec_phi(2)),
        ),
    )
}

/// The schema ¬¬ϕ₀ → ϕ₀.
pub open spec fn spec_prop3() -> SpecPattern {
    SpecPattern::implies(SpecPattern::not(SpecPattern::not(spec_phi(0))), spec_phi(0))
}

/// The schema ϕ₀[x₁/x₀] → ∃x₀. ϕ₀.
pub open spec fn spec_quantifier() -> SpecPattern {
    SpecPattern::implies(
        SpecPattern::esubst(spec_phi(0), 0, SpecPattern::EVar(1)),
        SpecPattern::exists_pat(0, spec_phi(0)),
    )
}

/// The schema ∃x₀. x₀.
pub open spec fn spec_existence() -> SpecPattern {
    SpecPattern::exists_pat(0, SpecPattern::EVar(0))
}

/// Execute the single instruction block at the front of the stream
/// against a machine state: the state after it and the remaining stream,
/// or the first error.  The stream must be nonempty.
pub open spec fn spec_step(s: Seq<u8>, st: SpecState, phase: ExecutionPhase) -> Result<
    (SpecState, Seq<u8>),
    CheckError,
> {
    let rest = s.skip(1);
    match spec_from_byte(s[0]) {
        None => Err(CheckError::UnknownOpcode),
        Some(Instruction::EVar) => {
            if rest.len() < 1 {
                Err(CheckError::TruncatedStream)
            } else {
                Ok((
                    SpecState {
                        stack: st.stack.push(SpecTerm::Pattern(SpecPattern::EVar(rest[0]))),
                        ..st
                    },
                    rest.skip(1),
                ))
            }
        },
        Some(Instruction::SVar) => {
            if rest.len() < 1 {
                Err(CheckError::TruncatedStream)
            } else {
                Ok((
                    SpecState {
                        stack: st.stack.push(SpecTerm::Pattern(SpecPattern::SVar(rest[0]))),
                        ..st
                    },
                    rest.skip(1),
                ))
            }
        },
        Some(Instruction::Symbol) => {
            if rest.len() < 1 {
                Err(CheckError::TruncatedStream)
            } else {
                Ok((
                    SpecState {
                        stack: st.stack.push(SpecTerm::Pattern(SpecPattern::Symbol(rest[0]))),
                        ..st
                    },
                    rest.skip(1),
                ))
            }
        },
        Some(Instruction::MetaVar) => {
            if rest.len() < 1 {
                Err(CheckError::TruncatedStream)
            } else {
                let id = rest[0];
                match spec_read_list(rest.skip(1)) {
                    None => Err(CheckError::TruncatedStream),
                    Some((e_fresh, s1)) => match spec_read_list(s1) {
                        None => Err(CheckError::TruncatedStream),
                        Some((s_fresh, s2)) => match spec_read_list(s2) {
                            None => Err(CheckError::TruncatedStream),
                            Some((positive, s3)) => match spec_read_list(s3) {
                                None => Err(CheckError::TruncatedStream),
                                Some((negative, s4)) => match spec_read_list(s4) {
                                    None => Err(CheckError::TruncatedStream),
                                    Some((app_ctx_holes, s5)) => {
                                        let mv = SpecPattern::MetaVar {
                                            id,
                                            e_fresh,
                                            s_fresh,
                                            positive,
                                            negative,
                                            app_ctx_holes,
                                        };
                                        if !mv.well_formed() {
                                            Err(CheckError::IllFormedConstruction)
                                        } else {
                                            Ok((
                                                SpecState {
                                                    stack: st.stack.push(
                                                        SpecTerm::Pattern(mv),
                                                    ),
                                                    ..st
                                                },
                                                s5,
                                            ))
                                        }
                                    },
                                },
                            },
                        },
                    },
                }
            }
        },
        Some(Instruction::Implication) => {
            match spec_pop_pattern(st.stack) {
                Err(e) => Err(e),
                Ok((right, stack1)) => match spec_pop_pattern(stack1) {
                    Err(e) => Err(e),
                    Ok((left, stack2)) => Ok((
                        SpecState {
                            stack: stack2.push(
                                SpecTerm::Pattern(SpecPattern::implies(left, right)),
                            ),
                            ..st
                        },
                        rest,
                    )),
                },
            }
        },
        Some(Instruction::Application) => {
            match spec_pop_pattern(st.stack) {
                Err(e) => Err(e),
                Ok((right, stack1)) => match spec_pop_pattern(stack1) {
                    Err(e) => Err(e),
                    Ok((left, stack2)) => Ok((
                        SpecState {
                            stack: stack2.push(
                                SpecTerm::Pattern(SpecPattern::app(left, right)),
                            ),
                            ..st
                        },
                        rest,
                    )),
                },
            }
        },
        Some(Instruction::Exists) => {
            if rest.len() < 1 {
                Err(CheckError::TruncatedStream)
            } else {
                match spec_pop_pattern(st.stack) {
                    Err(e) => Err(e),
                    Ok((sub, stack1)) => Ok((
                        SpecState {
                            stack: stack1.push(
                                SpecTerm::Pattern(SpecPattern::exists_pat(rest[0], sub)),
                            ),
                            ..st
                        },
                        rest.skip(1),
                    )),
                }
            }
        },
        Some(Instruction::Mu) => {
            if rest.len() < 1 {
                Err(CheckError::TruncatedStream)
            } else {
                match spec_pop_pattern(st.stack) {
                    Err(e) => Err(e),
                    Ok((sub, stack1)) => {
                        let m = SpecPattern::mu(rest[0], sub);
                        if !m.well_formed() {
                            Err(CheckError::IllFormedConstruction)
                        } else {
                            Ok((
                                SpecState { stack: stack1.push(SpecTerm::Pattern(m)), ..st },
                                rest.skip(1),
                            ))
                        }
                    },
                }
            }
        },
        Some(Instruction::ESubst) => {
            if rest.len() < 1 {
                Err(CheckError::TruncatedStream)
            } else {
                match spec_pop_pattern(st.stack) {
                    Err(e) => Err(e),
                    Ok((pattern, stack1)) => match spec_pop_pattern(stack1) {
                        Err(e) => Err(e),
                        Ok((plug, stack2)) => {
                            if !pattern.is_meta_head() {
                                Err(CheckError::IllFormedConstruction)
                            } else {
                                let w = SpecPattern::esubst(pattern, rest[0], plug);
                                // A well-formed wrapper records a
                                // meaningful substitution; a redundant
                                // one (the variable already fresh)
                                // leaves the pattern unchanged.
                                let pushed = if w.well_formed() {
                                    w
                                } else {
                                    pattern
                                };
                                Ok((
                                    SpecState {
                                        stack: stack2.push(SpecTerm::Pattern(pushed)),
                                        ..st
                                    },
                                    rest.skip(1),
                                ))
                            }
                        },
                    },
                }
            }
        },
        Some(Instruction::SSubst) => {
            if rest.len() < 1 {
                Err(CheckError::TruncatedStream)
            } else {
                match spec_pop_pattern(st.stack) {
                    Err(e) => Err(e),
                    Ok((pattern, stack1)) => match spec_pop_pattern(stack1) {
                        Err(e) => Err(e),
                        Ok((plug, stack2)) => {
                            if !pattern.is_meta_head() {
                                Err(CheckError::IllFormedConstruction)
                            } else {
                                let w = SpecPattern::ssubst(pattern, rest[0], plug);
                                // A well-formed wrapper records a
                                // meaningful substitution; a redundant
                                // one (the variable already fresh)
                                // leaves the pattern unchanged.
                                let pushed = if w.well_formed() {
                                    w
                                } else {
                                    pattern
                                };
                                Ok((
                                    SpecState {
                                        stack: stack2.push(SpecTerm::Pattern(pushed)),
                                        ..st
                                    },
                                    rest.skip(1),
                                ))
                            }
                        },
                    },
                }
            }
        },
        Some(Instruction::Prop1) => Ok((
            SpecState { stack: st.stack.push(SpecTerm::Proved(spec_prop1())), ..st },
            rest,
        )),
        Some(Instruction::Prop2) => Ok((
            SpecState { stack: st.stack.push(SpecTerm::Proved(spec_prop2())), ..st },
            rest,
        )),
        Some(Instruction::Prop3) => Ok((
            SpecState { stack: st.stack.push(SpecTerm::Proved(spec_prop3())), ..st },
            rest,
        )),
        Some(Instruction::Quantifier) => Ok((
            SpecState { stack: st.stack.push(SpecTerm::Proved(spec_quantifier())), ..st },
            rest,
        )),
        Some(Instruction::Existence) => Ok((
            SpecState { stack: st.stack.push(SpecTerm::Proved(spec_existence())), ..st },
            rest,
        )),
        Some(Instruction::ModusPonens) => {
            match spec_pop_proved(st.stack) {
                Err(e) => Err(e),
                Ok((premise2, stack1)) => match spec_pop_proved(stack1) {
                    Err(e) => Err(e),
                    Ok((premise1, stack2)) => match premise1 {
                        SpecPattern::Implication { left, right } => {
                            if *left != premise2 {
                                Err(CheckError::ModusPonensMismatch)
                            } else {
                                Ok((
                                    SpecState {
                                        stack: stack2.push(SpecTerm::Proved(*right)),
                                        ..st
                                    },
                                    rest,
                                ))
                            }
                        },
                        _ => Err(CheckError::ModusPonensMismatch),
                    },
                },
            }
        },
        Some(Instruction::Generalization) => {
            match spec_pop_proved(st.stack) {
                Err(e) => Err(e),
                Ok((premise, stack1)) => match premise {
                    SpecPattern::Implication { left, right } => {
                        if !right.e_fresh(0) {
                            Err(CheckError::GeneralizationNotFresh)
                        } else {
                            Ok((
                                SpecState {
                                    stack: stack1.push(
                                        SpecTerm::Proved(
                                            SpecPattern::implies(
                                                SpecPattern::exists_pat(0, *left),
                                                *right,
                                            ),
                                        ),
                                    ),
                                    ..st
                                },
                                rest,
                            ))
                        }
                    },
                    _ => Err(CheckError::TagMismatch),
                },
            }
        },
        Some(Instruction::Substitution) => {
            if rest.len() < 1 {
                Err(CheckError::TruncatedStream)
            } else {
                match spec_pop_pattern(st.stack) {
                    Err(e) => Err(e),
                    Ok((plug, stack1)) => match spec_pop_proved(stack1) {
                        Err(e) => Err(e),
                        Ok((pattern, stack2)) => {
                            if !pattern.is_meta_head() {
                                Err(CheckError::IllFormedConstruction)
                            } else {
                                let w = SpecPattern::ssubst(pattern, rest[0], plug);
                                // A redundant substitution (the
                                // variable already fresh) leaves the
                                // proved pattern unchanged.
                                let pushed = if w.well_formed() {
                                    w
                                } else {
                                    pattern
                                };
                                Ok((
                                    SpecState {
                                        stack: stack2.push(SpecTerm::Proved(pushed)),
                                        ..st
                                    },
                                    rest.skip(1),
                                ))
                            }
                        },
                    },
                }
            }
        },
        Some(Instruction::Instantiate) => {
            if rest.len() < 1 {
                Err(CheckError::TruncatedStream)
            } else {
                let n = rest[0] as int;
                let body = rest.skip(1);
                match spec_pop_term(st.stack) {
                    Err(e) => Err(e),
                    Ok((metaterm, stack1)) => {
                        if body.len() >= n && spec_pops_are_patterns(stack1, n) {
                            let ids = body.subrange(0, n);
                            let plugs = spec_top_patterns(stack1, n);
                            let stack2 = stack1.take(stack1.len() - n);
                            match metaterm {
                                SpecTerm::Pattern(p) => match p.instantiate(ids, plugs) {
                                    Err(e) => Err(e),
                                    Ok(q) => Ok((
                                        SpecState {
                                            stack: stack2.push(SpecTerm::Pattern(q)),
                                            ..st
                                        },
                                        body.skip(n),
                                    )),
                                },
                                SpecTerm::Proved(p) => match p.instantiate(ids, plugs) {
                                    Err(e) => Err(e),
                                    Ok(q) => Ok((
                                        SpecState {
                                            stack: stack2.push(SpecTerm::Proved(q)),
                                            ..st
                                        },
                                        body.skip(n),
                                    )),
                                },
                            }
                        } else {
                            Err(spec_args_error(body, stack1, n))
                        }
                    },
                }
            }
        },
        Some(Instruction::Pop) => {
            // Dropping the top of an empty stack is silently ignored.
            let stack1 = if st.stack.len() == 0 {
                st.stack
            } else {
                st.stack.drop_last()
            };
            Ok((SpecState { stack: stack1, ..st }, rest))
        },
        Some(Instruction::Save) => {
            if st.stack.len() == 0 {
                Err(CheckError::StackUnderflow)
            } else {
                let entry = match st.stack.last() {
                    SpecTerm::Pattern(p) => SpecEntry::Pattern(p),
                    SpecTerm::Proved(p) => SpecEntry::Proved(p),
                };
                Ok((SpecState { memory: st.memory.push(entry), ..st }, rest))
            }
        },
        Some(Instruction::Load) => {
            if rest.len() < 1 {
                Err(CheckError::TruncatedStream)
            } else {
                let index = rest[0] as int;
                if index >= st.memory.len() {
                    Err(CheckError::MemoryOutOfRange)
                } else {
                    let term = match st.memory[index] {
                        SpecEntry::Pattern(p) => SpecTerm::Pattern(p),
                        SpecEntry::Proved(p) => SpecTerm::Proved(p),
                    };
                    Ok((
                        SpecState { stack: st.stack.push(term), ..st },
                        rest.skip(1),
                    ))
                }
            }
        },
        Some(Instruction::Publish) => {
            match phase {
                ExecutionPhase::Gamma => match spec_pop_pattern(st.stack) {
                    Err(e) => Err(e),
                    Ok((p, stack1)) => Ok((
                        SpecState {
                            stack: stack1,
                            axioms: st.axioms.push(SpecEntry::Proved(p)),
                            ..st
                        },
                        rest,
                    )),
                },
                ExecutionPhase::Claim => match spec_pop_pattern(st.stack) {
                    Err(e) => Err(e),
                    Ok((p, stack1)) => Ok((
                        SpecState { stack: stack1, claims: st.claims.push(p), ..st },
                        rest,
                    )),
                },
                ExecutionPhase::Proof => {
                    if st.claims.len() == 0 {
                        Err(CheckError::ClaimMismatch)
                    } else {
                        let claim = st.claims.last();
                        match spec_pop_proved(st.stack) {
                            Err(e) => Err(e),
                            Ok((theorem, stack1)) => {
                                if claim != theorem {
                                    Err(CheckError::ClaimMismatch)
                                } else {
                                    Ok((
                                        SpecState {
                                            stack: stack1,
                                            claims: st.claims.drop_last(),
                                            ..st
                                        },
                                        rest,
                                    ))
                                }
                            },
                        }
                    }
                },
            }
        },
        // The reserved opcodes are decoded but refuse to execute.
        Some(Instruction::PropagationOr) => Err(CheckError::UnknownOpcode),
        Some(Instruction::PropagationExists) => Err(CheckError::UnknownOpcode),
        Some(Instruction::PreFixpoint) => Err(CheckError::UnknownOpcode),
        Some(Instruction::Singleton) => Err(CheckError::UnknownOpcode),
        Some(Instruction::Frame) => Err(CheckError::UnknownOpcode),
        Some(Instruction::KnasterTarski) => Err(CheckError::UnknownOpcode),
    }
}

/// Execute a whole instruction stream against a machine state.  The
/// result is the final state at stream exhaustion, or the first error.
/// Each step strips one full instruction block off the front.
pub open spec fn spec_execute(s: Seq<u8>, st: SpecState, phase: ExecutionPhase) -> Result<
    SpecState,
    CheckError,
>
    decreases s.len(),
{
    if s.len() == 0 {
        Ok(st)
    } else {
        match spec_step(s, st, phase) {
            Err(e) => Err(e),
            Ok((st2, s2)) => spec_execute(s2, st2, phase),
        }
    }
}

/// The empty machine state.
pub open spec fn spec_empty_state() -> SpecState {
    SpecState {
        stack: Seq::empty(),
        memory: Seq::empty(),
        claims: Seq::empty(),
        axioms: Seq::empty(),
    }
}

/// A whole run: the theory stream seeds the axiom pool, the claim stream
/// the claim queue; the proof stream starts with the axioms as memory and
/// must leave the claim queue empty.
pub open spec fn spec_verify(gamma: Seq<u8>, claims: Seq<u8>, proof: Seq<u8>) -> Result<
    (),
    CheckError,
> {
    match spec_execute(gamma, spec_empty_state(), ExecutionPhase::Gamma) {
        Err(e) => Err(e),
        Ok(st_gamma) => match spec_execute(
            claims,
            spec_empty_state(),
            ExecutionPhase::Claim,
        ) {
            Err(e) => Err(e),
            Ok(st_claim) => match spec_execute(
                proof,
                SpecState {
                    stack: Seq::empty(),
                    memory: st_gamma.axioms,
                    claims: st_claim.claims,
                    axioms: Seq::empty(),
                },
                ExecutionPhase::Proof,
            ) {
                Err(e) => Err(e),
                Ok(st_proof) => {
                    if st_proof.claims.len() != 0 {
                        Err(CheckError::UndischargedClaims)
                    } else {
                        Ok(())
                    }
                },
            },
        },
    }
}

} // verus!
