//! The instruction machine, run one phase at a time on instruction
//! vectors.

use std::rc::Rc;

use checker::{
    exists_pat, execute_vector, metavar_unconstrained, serialize_metavar, symbol, CheckError,
    Entry, ExecutionPhase, Instruction, Pattern, Term,
};

fn implies(left: Rc<Pattern>, right: Rc<Pattern>) -> Rc<Pattern> {
    checker::pattern::implies(left, right)
}

#[test]
fn test_publish() {
    let proof = vec![Instruction::Publish.to_byte()];

    let mut stack = vec![Term::Pattern(symbol(0))];
    let mut memory = vec![];
    let mut claims = vec![];
    let mut axioms = vec![];
    execute_vector(
        &proof,
        &mut stack,
        &mut memory,
        &mut claims,
        &mut axioms,
        ExecutionPhase::Gamma,
    )
    .unwrap();
    assert_eq!(stack, vec![]);
    assert_eq!(claims, vec![]);
    assert_eq!(memory, vec![]);
    assert_eq!(axioms, vec![Entry::Proved(symbol(0))]);

    let mut stack = vec![Term::Pattern(symbol(0))];
    let mut memory = vec![];
    let mut claims = vec![];
    let mut axioms = vec![];
    execute_vector(
        &proof,
        &mut stack,
        &mut memory,
        &mut claims,
        &mut axioms,
        ExecutionPhase::Claim,
    )
    .unwrap();
    assert_eq!(stack, vec![]);
    assert_eq!(memory, vec![]);
    assert_eq!(claims, vec![symbol(0)]);
    assert_eq!(axioms, vec![]);

    let mut stack = vec![Term::Proved(symbol(0))];
    let mut memory = vec![];
    let mut claims = vec![symbol(0)];
    let mut axioms = vec![];
    execute_vector(
        &proof,
        &mut stack,
        &mut memory,
        &mut claims,
        &mut axioms,
        ExecutionPhase::Proof,
    )
    .unwrap();
    assert_eq!(stack, vec![]);
    assert_eq!(memory, vec![]);
    assert_eq!(claims, vec![]);
    assert_eq!(axioms, vec![]);
}

#[test]
fn test_construct_phi_implies_phi() {
    let proof: Vec<u8> = vec![
        Instruction::MetaVar.to_byte(), 0, 0, 0, 0, 0, 0, // Stack: Phi
        Instruction::Save.to_byte(),        // @ 0
        Instruction::Load.to_byte(), 0,     // Phi ; Phi
        Instruction::Implication.to_byte(), // Phi -> Phi
    ];

    let mut stack = vec![];
    execute_vector(
        &proof,
        &mut stack,
        &mut vec![],
        &mut vec![],
        &mut vec![],
        ExecutionPhase::Proof,
    )
    .unwrap();
    let phi0 = metavar_unconstrained(0);
    assert_eq!(
        stack,
        vec![Term::Pattern(Rc::new(Pattern::Implication {
            left: phi0.clone(),
            right: phi0.clone()
        }))]
    );
}

#[test]
fn test_construct_phi_implies_phi_with_constraints() {
    let mut cons = vec![vec![1u8], vec![], vec![], vec![], vec![]];

    for _ in 0..5 {
        let mut proof: Vec<u8> = serialize_metavar(1, &cons);
        proof.append(&mut vec![
            Instruction::Save.to_byte(), // @ 0
            Instruction::Load.to_byte(),
            0, // Phi1 ; Phi1
            Instruction::Implication.to_byte(),
        ]); // Phi1 -> Phi1

        let mut stack = vec![];
        execute_vector(
            &proof,
            &mut stack,
            &mut vec![],
            &mut vec![],
            &mut vec![],
            ExecutionPhase::Proof,
        )
        .unwrap();

        let phi1 = Rc::new(Pattern::MetaVar {
            id: 1,
            e_fresh: cons[0].clone(),
            s_fresh: cons[1].clone(),
            positive: cons[2].clone(),
            negative: cons[3].clone(),
            app_ctx_holes: cons[4].clone(),
        });

        assert_eq!(
            stack,
            vec![Term::Pattern(Rc::new(Pattern::Implication {
                left: phi1.clone(),
                right: phi1.clone()
            }))]
        );

        // Make the next field the non-empty one
        cons.rotate_right(1);
    }
}

#[test]
fn test_phi_implies_phi_impl() {
    let proof: Vec<u8> = vec![
        Instruction::MetaVar.to_byte(), 0, 0, 0, 0, 0, 0, // Stack: $ph0
        Instruction::Save.to_byte(),                    // @0
        Instruction::Load.to_byte(), 0,                 // Stack: $ph0; ph0
        Instruction::Load.to_byte(), 0,                 // Stack: $ph0; $ph0; ph0
        Instruction::Implication.to_byte(),             // Stack: $ph0; ph0 -> ph0
        Instruction::Save.to_byte(),                    // @1
        Instruction::Prop2.to_byte(),
        Instruction::Instantiate.to_byte(), 1, 1,
        Instruction::Instantiate.to_byte(), 1, 2,
        Instruction::Load.to_byte(), 1,
        Instruction::Prop1.to_byte(),
        Instruction::Instantiate.to_byte(), 1, 1,
        Instruction::ModusPonens.to_byte(),
        Instruction::Load.to_byte(), 0,
        Instruction::Prop1.to_byte(),
        Instruction::Instantiate.to_byte(), 1, 1,
        Instruction::ModusPonens.to_byte(),             // Stack: ph0 -> ph0
    ];
    let mut stack = vec![];
    execute_vector(
        &proof,
        &mut stack,
        &mut vec![],
        &mut vec![],
        &mut vec![],
        ExecutionPhase::Proof,
    )
    .unwrap();
    let phi0 = metavar_unconstrained(0);
    assert_eq!(
        stack,
        vec![Term::Proved(Rc::new(Pattern::Implication {
            left: Rc::clone(&phi0),
            right: Rc::clone(&phi0)
        }))]
    )
}

#[test]
fn test_universal_quantification() {
    let proof: Vec<u8> = vec![
        Instruction::Generalization.to_byte()
    ];
    let mut stack = vec![Term::Proved(implies(symbol(0), symbol(1)))];
    let mut memory = vec![];
    let mut claims = vec![];
    let mut axioms = vec![];
    execute_vector(
        &proof,
        &mut stack,
        &mut memory,
        &mut claims,
        &mut axioms,
        ExecutionPhase::Proof,
    )
    .unwrap();
    assert_eq!(
        stack,
        vec![Term::Proved(implies(exists_pat(0, symbol(0)), symbol(1)))]
    );
    assert_eq!(memory, vec![]);
    assert_eq!(claims, vec![]);
}

#[test]
fn generalization_rejects_free_binder() {
    let proof = vec![Instruction::Generalization.to_byte()];
    let mut stack = vec![Term::Proved(implies(
        checker::evar(0),
        checker::evar(0),
    ))];
    let r = execute_vector(
        &proof,
        &mut stack,
        &mut vec![],
        &mut vec![],
        &mut vec![],
        ExecutionPhase::Proof,
    );
    assert_eq!(r, Err(CheckError::GeneralizationNotFresh));
}

#[test]
fn opcode_bytes_round_trip() {
    let all = [
        Instruction::EVar,
        Instruction::SVar,
        Instruction::Symbol,
        Instruction::Implication,
        Instruction::Application,
        Instruction::Exists,
        Instruction::Mu,
        Instruction::MetaVar,
        Instruction::ESubst,
        Instruction::SSubst,
        Instruction::Prop1,
        Instruction::Prop2,
        Instruction::Prop3,
        Instruction::Quantifier,
        Instruction::PropagationOr,
        Instruction::PropagationExists,
        Instruction::PreFixpoint,
        Instruction::Existence,
        Instruction::Singleton,
        Instruction::ModusPonens,
        Instruction::Generalization,
        Instruction::Frame,
        Instruction::Substitution,
        Instruction::KnasterTarski,
        Instruction::Instantiate,
        Instruction::Pop,
        Instruction::Save,
        Instruction::Load,
        Instruction::Publish,
    ];
    for inst in all {
        assert_eq!(Instruction::from_byte(inst.to_byte()), Some(inst));
    }
    assert_eq!(Instruction::Mu.to_byte(), 7);
    assert_eq!(Instruction::Exists.to_byte(), 8);
    assert_eq!(Instruction::from_byte(0), None);
    assert_eq!(Instruction::from_byte(1), None);
    assert_eq!(Instruction::from_byte(31), None);
}

#[test]
fn serialize_metavar_exact_bytes() {
    let cons = vec![vec![1u8], vec![], vec![2u8, 3u8], vec![], vec![]];
    assert_eq!(
        serialize_metavar(7, &cons),
        vec![9, 7, 1, 1, 0, 2, 2, 3, 0, 0]
    );
}

#[test]
fn esubst_opcode_skips_redundant_substitution() {
    // A meta-variable declared fresh in the target variable: the pending
    // substitution would be redundant and the pattern is pushed back
    // unchanged, while the plug is consumed.
    let proof: Vec<u8> = vec![
        Instruction::Symbol.to_byte(), 1,                    // plug
        Instruction::MetaVar.to_byte(), 0, 1, 0, 0, 0, 0, 0, // e_fresh = [0]
        Instruction::ESubst.to_byte(), 0,
    ];
    let mut stack = vec![];
    execute_vector(
        &proof,
        &mut stack,
        &mut vec![],
        &mut vec![],
        &mut vec![],
        ExecutionPhase::Proof,
    )
    .unwrap();
    let expected = Rc::new(Pattern::MetaVar {
        id: 0,
        e_fresh: vec![0],
        s_fresh: vec![],
        positive: vec![],
        negative: vec![],
        app_ctx_holes: vec![],
    });
    assert_eq!(stack, vec![Term::Pattern(expected)]);
}

#[test]
fn ssubst_opcode_skips_redundant_substitution() {
    // A meta-variable declared fresh in the target set variable: the
    // pending substitution would be redundant and the pattern is pushed
    // back unchanged, while the plug is consumed.
    let proof: Vec<u8> = vec![
        Instruction::Symbol.to_byte(), 1,                    // plug
        Instruction::MetaVar.to_byte(), 0, 0, 1, 0, 0, 0, 0, // s_fresh = [0]
        Instruction::SSubst.to_byte(), 0,
    ];
    let mut stack = vec![];
    execute_vector(
        &proof,
        &mut stack,
        &mut vec![],
        &mut vec![],
        &mut vec![],
        ExecutionPhase::Proof,
    )
    .unwrap();
    let mvar = Rc::new(Pattern::MetaVar {
        id: 0,
        e_fresh: vec![],
        s_fresh: vec![0],
        positive: vec![],
        negative: vec![],
        app_ctx_holes: vec![],
    });
    assert_eq!(stack, vec![Term::Pattern(mvar)]);
}

#[test]
fn ssubst_opcode_records_meaningful_substitution() {
    // An unconstrained meta-variable is not fresh in the target set
    // variable: the pending substitution is recorded as a wrapper.
    let proof: Vec<u8> = vec![
        Instruction::Symbol.to_byte(), 1,                    // plug
        Instruction::MetaVar.to_byte(), 0, 0, 0, 0, 0, 0,
        Instruction::SSubst.to_byte(), 0,
    ];
    let mut stack = vec![];
    execute_vector(
        &proof,
        &mut stack,
        &mut vec![],
        &mut vec![],
        &mut vec![],
        ExecutionPhase::Proof,
    )
    .unwrap();
    assert_eq!(
        stack,
        vec![Term::Pattern(checker::ssubst(
            metavar_unconstrained(0),
            0,
            symbol(1)
        ))]
    );
}

#[test]
fn mu_opcode_rejects_negative_body() {
    // μ X₀ . ¬X₀ breaks positivity and must be refused.
    let proof: Vec<u8> = vec![
        Instruction::SVar.to_byte(), 0,
        Instruction::SVar.to_byte(), 0,
        Instruction::Mu.to_byte(), 0,          // bot = mu X0 . X0
        Instruction::Implication.to_byte(),    // X0 -> bot
        Instruction::Mu.to_byte(), 0,
    ];
    let r = execute_vector(
        &proof,
        &mut vec![],
        &mut vec![],
        &mut vec![],
        &mut vec![],
        ExecutionPhase::Proof,
    );
    assert_eq!(r, Err(CheckError::IllFormedConstruction));
}

#[test]
fn prop3_schema() {
    let phi0 = metavar_unconstrained(0);
    let proof = vec![Instruction::Prop3.to_byte()];
    let mut stack = vec![];
    execute_vector(
        &proof,
        &mut stack,
        &mut vec![],
        &mut vec![],
        &mut vec![],
        ExecutionPhase::Proof,
    )
    .unwrap();
    assert_eq!(
        stack,
        vec![Term::Proved(implies(
            checker::not(checker::not(Rc::clone(&phi0))),
            phi0
        ))]
    );
}

#[test]
fn quantifier_and_existence_schemas() {
    let phi0 = metavar_unconstrained(0);
    let proof = vec![Instruction::Quantifier.to_byte()];
    let mut stack = vec![];
    execute_vector(
        &proof,
        &mut stack,
        &mut vec![],
        &mut vec![],
        &mut vec![],
        ExecutionPhase::Proof,
    )
    .unwrap();
    assert_eq!(
        stack,
        vec![Term::Proved(implies(
            checker::esubst(Rc::clone(&phi0), 0, checker::evar(1)),
            exists_pat(0, phi0)
        ))]
    );

    let proof = vec![Instruction::Existence.to_byte()];
    let mut stack = vec![];
    execute_vector(
        &proof,
        &mut stack,
        &mut vec![],
        &mut vec![],
        &mut vec![],
        ExecutionPhase::Proof,
    )
    .unwrap();
    assert_eq!(
        stack,
        vec![Term::Proved(exists_pat(0, checker::evar(0)))]
    );
}

#[test]
fn substitution_opcode_applies_to_proved() {
    // A meaningful substitution is recorded as a pending node on the
    // proved pattern.
    let proof = vec![Instruction::Substitution.to_byte(), 0];
    let mut stack = vec![
        Term::Proved(metavar_unconstrained(0)),
        Term::Pattern(symbol(1)),
    ];
    execute_vector(
        &proof,
        &mut stack,
        &mut vec![],
        &mut vec![],
        &mut vec![],
        ExecutionPhase::Proof,
    )
    .unwrap();
    assert_eq!(
        stack,
        vec![Term::Proved(checker::ssubst(
            metavar_unconstrained(0),
            0,
            symbol(1)
        ))]
    );

    // A redundant one (the variable already fresh) passes the proved
    // pattern through unchanged.
    let mut stack = vec![
        Term::Proved(checker::metavar_s_fresh(0, 0, vec![], vec![])),
        Term::Pattern(symbol(1)),
    ];
    execute_vector(
        &proof,
        &mut stack,
        &mut vec![],
        &mut vec![],
        &mut vec![],
        ExecutionPhase::Proof,
    )
    .unwrap();
    assert_eq!(
        stack,
        vec![Term::Proved(checker::metavar_s_fresh(0, 0, vec![], vec![]))]
    );
}

#[test]
fn generalization_on_non_implication() {
    let proof = vec![Instruction::Generalization.to_byte()];
    let mut stack = vec![Term::Proved(symbol(0))];
    let r = execute_vector(
        &proof,
        &mut stack,
        &mut vec![],
        &mut vec![],
        &mut vec![],
        ExecutionPhase::Proof,
    );
    assert_eq!(r, Err(CheckError::TagMismatch));
}

#[test]
fn instantiate_keeps_the_proved_tag() {
    let proof = vec![Instruction::Instantiate.to_byte(), 1, 0];
    let mut stack = vec![
        Term::Pattern(symbol(3)),
        Term::Proved(metavar_unconstrained(0)),
    ];
    execute_vector(
        &proof,
        &mut stack,
        &mut vec![],
        &mut vec![],
        &mut vec![],
        ExecutionPhase::Proof,
    )
    .unwrap();
    assert_eq!(stack, vec![Term::Proved(symbol(3))]);
}

#[test]
fn pop_removes_the_top() {
    let proof = vec![Instruction::Pop.to_byte()];
    let mut stack = vec![Term::Pattern(symbol(0)), Term::Pattern(symbol(1))];
    execute_vector(
        &proof,
        &mut stack,
        &mut vec![],
        &mut vec![],
        &mut vec![],
        ExecutionPhase::Proof,
    )
    .unwrap();
    assert_eq!(stack, vec![Term::Pattern(symbol(0))]);
}
