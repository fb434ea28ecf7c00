//! Structural predicates of the pattern algebra: freshness, polarity and
//! well-formedness.

use std::rc::Rc;

use checker::{
    app, esubst, evar, exists_pat, metavar_s_fresh, metavar_unconstrained, mu, not, ssubst,
    svar, symbol, Pattern,
};

fn implies(left: Rc<Pattern>, right: Rc<Pattern>) -> Rc<Pattern> {
    checker::pattern::implies(left, right)
}

#[test]
fn test_efresh() {
    let evar = evar(1);
    let left = Rc::new(Pattern::Exists {
        var: 1,
        subpattern: evar.clone(),
    });
    assert!(left.e_fresh(1));

    let right = Rc::new(Pattern::Exists {
        var: 2,
        subpattern: evar,
    });
    assert!(!right.e_fresh(1));

    let implication = implies(Rc::clone(&left), Rc::clone(&right));
    assert!(!implication.e_fresh(1));

    let mvar = metavar_s_fresh(1, 2, vec![2], vec![2]);
    let metaapp = Pattern::Application {
        left: Rc::clone(&left),
        right: mvar,
    };
    assert!(!metaapp.e_fresh(2));

    let esubst_ = esubst(Rc::clone(&right), 1, Rc::clone(&left));
    assert!(esubst_.e_fresh(1));

    let ssubst_ = ssubst(Rc::clone(&right), 1, left);
    assert!(!ssubst_.e_fresh(1));
}

#[test]
fn test_sfresh() {
    let svar = svar(1);
    let left = Rc::new(Pattern::Mu {
        var: 1,
        subpattern: svar.clone(),
    });
    assert!(left.s_fresh(1));

    let right = Rc::new(Pattern::Mu {
        var: 2,
        subpattern: svar,
    });
    assert!(!right.s_fresh(1));

    let implication = implies(Rc::clone(&left), Rc::clone(&right));
    assert!(!implication.s_fresh(1));

    let mvar = metavar_s_fresh(1, 2, vec![2], vec![2]);
    let metaapp = Pattern::Application {
        left: Rc::clone(&left),
        right: Rc::clone(&mvar),
    };
    assert!(!metaapp.s_fresh(1));

    let metaapp2 = Pattern::Application {
        left: Rc::clone(&left),
        right: mvar,
    };
    assert!(metaapp2.s_fresh(2));

    let esubst_ = esubst(Rc::clone(&right), 1, Rc::clone(&left));
    assert!(!esubst_.s_fresh(1));

    let ssubst_ = ssubst(Rc::clone(&right), 1, left);
    assert!(ssubst_.s_fresh(1));
}

#[test]
fn test_wellformedness_fresh() {
    let phi0_s_fresh_0 = metavar_s_fresh(0, 0, vec![0], vec![0]);
    assert!(phi0_s_fresh_0.well_formed());

    let phi1 = Rc::new(Pattern::MetaVar {
        id: 1,
        e_fresh: vec![1, 2, 0],
        s_fresh: vec![],
        positive: vec![],
        negative: vec![],
        app_ctx_holes: vec![2],
    });
    assert!(!phi1.well_formed());
}

#[test]
#[allow(non_snake_case)]
fn test_positivity() {
    let X0 = svar(0);
    let X1 = svar(1);
    let X2 = svar(2);
    let c1 = symbol(1);
    let neg_X1 = not(Rc::clone(&X1));

    // EVar
    let evar1 = evar(1);
    assert!(evar1.positive(1));
    assert!(evar1.negative(1));
    assert!(evar1.positive(2));
    assert!(evar1.negative(2));

    // SVar
    assert!(X1.positive(1));
    assert!(!X1.negative(1));
    assert!(X1.positive(2));
    assert!(X1.negative(2));

    // Symbol
    assert!(c1.positive(1));
    assert!(c1.negative(1));
    assert!(c1.positive(2));
    assert!(c1.negative(2));

    // Application
    let appX1X2 = app(Rc::clone(&X1), Rc::clone(&X2));
    assert!(appX1X2.positive(1));
    assert!(appX1X2.positive(2));
    assert!(appX1X2.positive(3));
    assert!(!appX1X2.negative(1));
    assert!(!appX1X2.negative(2));
    assert!(appX1X2.negative(3));

    // Implication
    let impliesX1X2 = implies(Rc::clone(&X1), Rc::clone(&X2));
    assert!(!impliesX1X2.positive(1));
    assert!(impliesX1X2.positive(2));
    assert!(impliesX1X2.positive(3));
    assert!(impliesX1X2.negative(1));
    assert!(!impliesX1X2.negative(2));
    assert!(impliesX1X2.negative(3));

    let impliesX1X1 = implies(Rc::clone(&X1), Rc::clone(&X1));
    assert!(!impliesX1X1.positive(1));
    assert!(!impliesX1X1.negative(1));

    // Exists
    let existsX1X2 = exists_pat(1, Rc::clone(&X2));
    assert!(existsX1X2.positive(1));
    assert!(existsX1X2.positive(2));
    assert!(existsX1X2.positive(3));
    assert!(existsX1X2.negative(1));
    assert!(!existsX1X2.negative(2));
    assert!(existsX1X2.negative(3));

    // Mu
    let muX1x1 = mu(1, Rc::clone(&evar1));
    assert!(muX1x1.positive(1));
    assert!(muX1x1.positive(2));
    assert!(muX1x1.negative(1));
    assert!(muX1x1.negative(2));

    let muX1X1 = mu(1, Rc::clone(&X1));
    assert!(muX1X1.positive(1));
    assert!(muX1X1.negative(1));

    let muX1X2 = mu(1, Rc::clone(&X2));
    assert!(muX1X2.positive(1));
    assert!(muX1X2.positive(2));
    assert!(muX1X2.positive(3));
    assert!(muX1X2.negative(1));
    assert!(!muX1X2.negative(2));
    assert!(mu(1, implies(Rc::clone(&X2), Rc::clone(&X1))).negative(2));
    assert!(muX1X2.negative(3));

    // MetaVar
    assert!(!metavar_unconstrained(1).positive(1));
    assert!(!metavar_unconstrained(1).positive(2));
    assert!(!metavar_unconstrained(1).negative(1));
    assert!(!metavar_unconstrained(1).negative(2));

    // Do not imply positivity from freshness
    assert!(!metavar_s_fresh(1, 1, vec![], vec![]).positive(1));
    assert!(!metavar_s_fresh(1, 1, vec![], vec![]).negative(1));
    assert!(metavar_s_fresh(1, 1, vec![1], vec![1]).positive(1));
    assert!(metavar_s_fresh(1, 1, vec![1], vec![1]).negative(1));
    assert!(metavar_s_fresh(1, 1, vec![1], vec![]).positive(1));
    assert!(metavar_s_fresh(1, 1, vec![], vec![1]).negative(1));

    assert!(!metavar_s_fresh(1, 1, vec![], vec![]).positive(2));
    assert!(!metavar_s_fresh(1, 1, vec![], vec![]).negative(2));

    // ESubst
    assert!(!esubst(metavar_unconstrained(0), 0, Rc::clone(&X0)).positive(0));
    assert!(!esubst(metavar_unconstrained(0), 0, Rc::clone(&X1)).positive(0));
    assert!(!esubst(metavar_s_fresh(0, 1, vec![1], vec![]), 0, Rc::clone(&X1)).positive(0));

    assert!(!esubst(metavar_unconstrained(0), 0, Rc::clone(&X0)).negative(0));
    assert!(!esubst(metavar_unconstrained(0), 0, Rc::clone(&X1)).negative(0));
    assert!(!esubst(metavar_s_fresh(0, 1, vec![1], vec![]), 0, Rc::clone(&X1)).negative(0));

    // SSubst
    assert!(!ssubst(metavar_unconstrained(0), 0, Rc::clone(&X0)).positive(0));
    assert!(ssubst(metavar_unconstrained(0), 0, Rc::clone(&X1)).positive(0));
    assert!(ssubst(metavar_s_fresh(0, 1, vec![1], vec![]), 0, Rc::clone(&X1)).positive(0));

    assert!(!ssubst(metavar_unconstrained(0), 0, Rc::clone(&X0)).negative(0));
    assert!(ssubst(metavar_unconstrained(0), 0, Rc::clone(&X1)).negative(0));
    assert!(ssubst(metavar_s_fresh(0, 1, vec![1], vec![]), 0, Rc::clone(&X1)).negative(0));

    // Combinations
    assert!(!neg_X1.positive(1));
    assert!(neg_X1.positive(2));
    assert!(neg_X1.negative(1));
    assert!(neg_X1.negative(2));

    let negX1_implies_negX1 = implies(Rc::clone(&neg_X1), Rc::clone(&neg_X1));
    assert!(!negX1_implies_negX1.positive(1));
    assert!(negX1_implies_negX1.positive(2));
    assert!(!negX1_implies_negX1.negative(1));
    assert!(negX1_implies_negX1.negative(2));

    let negX1_implies_X1 = implies(Rc::clone(&neg_X1), Rc::clone(&X1));
    assert!(negX1_implies_X1.positive(1));
    assert!(!negX1_implies_X1.negative(1));
}

#[test]
fn test_wellformedness_positive() {
    let svar = svar(1);
    let mux_x = mu(1, Rc::clone(&svar));
    assert!(mux_x.well_formed());

    let mux_x2 = mu(2, not(Rc::clone(&svar)));
    assert!(mux_x2.well_formed());

    let mux_x3 = mu(2, not(symbol(1)));
    assert!(mux_x3.well_formed());

    let mux_x = mu(1, not(Rc::clone(&svar)));
    assert!(!mux_x.well_formed());

    let phi = metavar_s_fresh(97, 2, vec![], vec![]);
    let mux_phi = mu(1, phi);
    assert!(!mux_phi.well_formed());

    // Even though freshness implies positivity, we do not want to do any
    // additional reasoning and let everything on the prover
    let phi2 = metavar_s_fresh(98, 1, vec![], vec![]);
    let mux_phi2 = mu(1, phi2);
    assert!(!mux_phi2.well_formed());

    // It's ok if 2 is negative, the only thing we care about is that 2 is
    // guaranteed to be positive (we can instantiate without this variable)
    let phi3 = metavar_s_fresh(99, 1, vec![2], vec![2]);
    let mux_phi3 = mu(2, phi3);
    assert!(mux_phi3.well_formed());

    let phi4 = metavar_s_fresh(100, 1, vec![2], vec![]);
    let mux_phi4 = mu(2, phi4);
    assert!(mux_phi4.well_formed());
}

#[test]
fn freshness_carries_over_connectives() {
    let p = implies(evar(1), evar(2));
    let q = app(evar(1), evar(2));
    assert!(p.e_fresh(0));
    assert!(q.e_fresh(0));
    assert!(implies(Rc::clone(&p), Rc::clone(&q)).e_fresh(0));
    assert!(app(p, q).e_fresh(0));
}

#[test]
fn negativity_recurses_into_exists() {
    // The polarity check of a binder consults the body's own polarity,
    // not its freshness: a meta-variable declared fresh in the variable
    // but without a negativity constraint is not negative in it.
    let body = metavar_s_fresh(1, 0, vec![], vec![]);
    assert!(!body.negative(0));
    assert!(!exists_pat(2, Rc::clone(&body)).negative(0));
    let constrained = metavar_s_fresh(1, 0, vec![], vec![0]);
    assert!(constrained.negative(0));
    assert!(exists_pat(2, constrained).negative(0));
}

#[test]
fn concrete_heads_are_trivially_well_formed() {
    // Atoms and the concrete connectives carry no local well-formedness
    // condition; their children are assumed well-formed.
    assert!(evar(0).well_formed());
    assert!(svar(1).well_formed());
    assert!(symbol(2).well_formed());
    assert!(implies(evar(0), evar(1)).well_formed());
    assert!(app(evar(0), evar(1)).well_formed());
    assert!(exists_pat(0, evar(0)).well_formed());
}
