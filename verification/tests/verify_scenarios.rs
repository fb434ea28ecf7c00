//! Whole runs of the three-phase checker over byte streams.

use checker::{verify, CheckError, Instruction};

fn op(i: Instruction) -> u8 {
    i.to_byte()
}

/// The claim stream that publishes ϕ₀ → ϕ₀.
fn phi_implies_phi_claim() -> Vec<u8> {
    vec![
        op(Instruction::MetaVar),
        0,
        0,
        0,
        0,
        0,
        0,
        op(Instruction::Save),
        op(Instruction::Load),
        0,
        op(Instruction::Implication),
        op(Instruction::Publish),
    ]
}

/// A proof stream that derives Proved(ϕ₀ → ϕ₀) from the two
/// propositional schemas and modus ponens.
fn phi_implies_phi_proof() -> Vec<u8> {
    vec![
        op(Instruction::MetaVar),
        0,
        0,
        0,
        0,
        0,
        0,
        op(Instruction::Save),
        op(Instruction::Load),
        0,
        op(Instruction::Load),
        0,
        op(Instruction::Implication),
        op(Instruction::Save),
        op(Instruction::Prop2),
        op(Instruction::Instantiate),
        1,
        1,
        op(Instruction::Instantiate),
        1,
        2,
        op(Instruction::Load),
        1,
        op(Instruction::Prop1),
        op(Instruction::Instantiate),
        1,
        1,
        op(Instruction::ModusPonens),
        op(Instruction::Load),
        0,
        op(Instruction::Prop1),
        op(Instruction::Instantiate),
        1,
        1,
        op(Instruction::ModusPonens),
        op(Instruction::Publish),
    ]
}

#[test]
fn identity_claim_round_trip() {
    // The claim phase builds ϕ₀ → ϕ₀; the proof phase derives it and
    // publishes it.
    let gamma: Vec<u8> = vec![];
    let claims = phi_implies_phi_claim();
    let proof = phi_implies_phi_proof();
    assert_eq!(verify(&gamma, &claims, &proof), Ok(()));
}

#[test]
fn phi_implies_phi_proof_succeeds() {
    // The published proof of ϕ₀ → ϕ₀ discharges the claim built from
    // Prop1, Prop2, Instantiate and ModusPonens alone.
    let gamma: Vec<u8> = vec![];
    let claims = phi_implies_phi_claim();
    let proof = phi_implies_phi_proof();
    assert_eq!(verify(&gamma, &claims, &proof), Ok(()));

    // The same proof against no claim leaves the publish with nothing to
    // discharge.
    let no_claims: Vec<u8> = vec![];
    assert_eq!(
        verify(&gamma, &no_claims, &proof),
        Err(CheckError::ClaimMismatch)
    );
}

#[test]
fn modus_ponens_mismatch() {
    // Γ provides Symbol 0 → Symbol 1 and Symbol 2 as axioms; applying
    // modus ponens to them must be refused.
    let gamma: Vec<u8> = vec![
        op(Instruction::Symbol),
        0,
        op(Instruction::Symbol),
        1,
        op(Instruction::Implication),
        op(Instruction::Publish),
        op(Instruction::Symbol),
        2,
        op(Instruction::Publish),
    ];
    let claims: Vec<u8> = vec![];
    let proof: Vec<u8> = vec![
        op(Instruction::Load),
        0,
        op(Instruction::Load),
        1,
        op(Instruction::ModusPonens),
    ];
    assert_eq!(
        verify(&gamma, &claims, &proof),
        Err(CheckError::ModusPonensMismatch)
    );
}

#[test]
fn generalization_freshness_violation() {
    // Γ provides EVar 0 → EVar 0; generalizing it binds a variable free
    // in the conclusion.
    let gamma: Vec<u8> = vec![
        op(Instruction::EVar),
        0,
        op(Instruction::EVar),
        0,
        op(Instruction::Implication),
        op(Instruction::Publish),
    ];
    let claims: Vec<u8> = vec![];
    let proof: Vec<u8> = vec![op(Instruction::Load), 0, op(Instruction::Generalization)];
    assert_eq!(
        verify(&gamma, &claims, &proof),
        Err(CheckError::GeneralizationNotFresh)
    );
}

#[test]
fn axiom_reuse() {
    // Γ publishes Symbol 0; the proof phase loads it back as proved and
    // discharges the matching claim.
    let gamma: Vec<u8> = vec![op(Instruction::Symbol), 0, op(Instruction::Publish)];
    let claims: Vec<u8> = vec![op(Instruction::Symbol), 0, op(Instruction::Publish)];
    let proof: Vec<u8> = vec![op(Instruction::Load), 0, op(Instruction::Publish)];
    assert_eq!(verify(&gamma, &claims, &proof), Ok(()));
}

#[test]
fn undischarged_claim() {
    // A claim is published but the proof stream ends without discharging
    // it.
    let gamma: Vec<u8> = vec![];
    let claims: Vec<u8> = vec![op(Instruction::Symbol), 0, op(Instruction::Publish)];
    let proof: Vec<u8> = vec![];
    assert_eq!(
        verify(&gamma, &claims, &proof),
        Err(CheckError::UndischargedClaims)
    );
}

#[test]
fn claim_mismatch() {
    let gamma: Vec<u8> = vec![op(Instruction::Symbol), 1, op(Instruction::Publish)];
    let claims: Vec<u8> = vec![op(Instruction::Symbol), 0, op(Instruction::Publish)];
    let proof: Vec<u8> = vec![op(Instruction::Load), 0, op(Instruction::Publish)];
    assert_eq!(
        verify(&gamma, &claims, &proof),
        Err(CheckError::ClaimMismatch)
    );
}

#[test]
fn stack_underflow() {
    let gamma: Vec<u8> = vec![op(Instruction::Implication)];
    assert_eq!(
        verify(&gamma, &[], &[]),
        Err(CheckError::StackUnderflow)
    );
}

#[test]
fn tag_mismatch() {
    // Publishing in the theory phase expects a pattern, not something
    // proved.
    let gamma: Vec<u8> = vec![op(Instruction::Prop1), op(Instruction::Publish)];
    assert_eq!(verify(&gamma, &[], &[]), Err(CheckError::TagMismatch));
}

#[test]
fn unknown_and_reserved_opcodes() {
    assert_eq!(verify(&[0], &[], &[]), Err(CheckError::UnknownOpcode));
    assert_eq!(verify(&[1], &[], &[]), Err(CheckError::UnknownOpcode));
    assert_eq!(verify(&[31], &[], &[]), Err(CheckError::UnknownOpcode));
    // Reserved instructions decode but refuse to execute.
    for reserved in [
        Instruction::PropagationOr,
        Instruction::PropagationExists,
        Instruction::PreFixpoint,
        Instruction::Singleton,
        Instruction::Frame,
        Instruction::KnasterTarski,
    ] {
        assert_eq!(
            verify(&[op(reserved)], &[], &[]),
            Err(CheckError::UnknownOpcode)
        );
    }
}

#[test]
fn truncated_stream() {
    // An EVar opcode with its id byte missing.
    assert_eq!(
        verify(&[op(Instruction::EVar)], &[], &[]),
        Err(CheckError::TruncatedStream)
    );
    // A MetaVar whose constraint lists are cut short.
    assert_eq!(
        verify(&[op(Instruction::MetaVar), 0, 2, 1], &[], &[]),
        Err(CheckError::TruncatedStream)
    );
}

#[test]
fn memory_out_of_range() {
    let proof: Vec<u8> = vec![op(Instruction::Load), 5];
    assert_eq!(
        verify(&[], &[], &proof),
        Err(CheckError::MemoryOutOfRange)
    );
}

#[test]
fn ill_formed_metavar() {
    // A meta-variable whose freshness set meets its context holes.
    let gamma: Vec<u8> = vec![op(Instruction::MetaVar), 0, 1, 1, 0, 0, 0, 1, 1];
    assert_eq!(
        verify(&gamma, &[], &[]),
        Err(CheckError::IllFormedConstruction)
    );
}

#[test]
fn instantiation_constraint_broken_in_stream() {
    // ϕ₀ constrained to be fresh in SVar 0, instantiated with SVar 0.
    let gamma: Vec<u8> = vec![
        op(Instruction::SVar),
        0,
        op(Instruction::MetaVar),
        0,
        0,
        1,
        0,
        0,
        0,
        0,
        op(Instruction::Instantiate),
        1,
        0,
    ];
    assert_eq!(
        verify(&gamma, &[], &[]),
        Err(CheckError::InstantiationConstraintBroken)
    );
}

#[test]
fn pop_is_silent_on_empty_stack() {
    // The Pop instruction ignores an empty stack.
    assert_eq!(verify(&[op(Instruction::Pop)], &[], &[]), Ok(()));
}

#[test]
fn save_needs_an_entry() {
    assert_eq!(
        verify(&[op(Instruction::Save)], &[], &[]),
        Err(CheckError::StackUnderflow)
    );
}
