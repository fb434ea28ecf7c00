//! The substitution engine: the eager substitution operators and the
//! meta-level instantiation driver.

use std::rc::Rc;

use checker::{
    app, apply_esubst, apply_ssubst, esubst, evar, exists_pat, instantiate, metavar_s_fresh,
    metavar_unconstrained, mu, ssubst, svar, symbol, CheckError, Pattern,
};

fn implies(left: Rc<Pattern>, right: Rc<Pattern>) -> Rc<Pattern> {
    checker::pattern::implies(left, right)
}

#[test]
#[allow(non_snake_case)]
fn test_instantiate() {
    let x0 = evar(0);
    let X0 = svar(0);
    let c0 = symbol(0);
    let x0_implies_x0 = implies(Rc::clone(&x0), Rc::clone(&x0));
    let appx0x0 = app(Rc::clone(&x0), Rc::clone(&x0));
    let existsx0x0 = exists_pat(0, Rc::clone(&x0));
    let muX0x0 = mu(0, Rc::clone(&x0));

    // Concrete patterns are unaffected by instantiate
    assert!(instantiate(Rc::clone(&x0), &[0], &[Rc::clone(&X0)]).unwrap() == x0);
    assert!(instantiate(Rc::clone(&x0), &[1], &[Rc::clone(&X0)]).unwrap() == x0);
    assert!(instantiate(Rc::clone(&X0), &[0], &[Rc::clone(&x0)]).unwrap() == X0);
    assert!(instantiate(Rc::clone(&X0), &[1], &[Rc::clone(&x0)]).unwrap() == X0);
    assert!(instantiate(Rc::clone(&c0), &[0], &[Rc::clone(&x0)]).unwrap() == c0);
    assert!(instantiate(Rc::clone(&c0), &[1], &[Rc::clone(&x0)]).unwrap() == c0);
    assert!(
        instantiate(Rc::clone(&x0_implies_x0), &[0], &[Rc::clone(&x0)]).unwrap()
            == x0_implies_x0
    );
    assert!(
        instantiate(Rc::clone(&x0_implies_x0), &[1], &[Rc::clone(&x0)]).unwrap()
            == x0_implies_x0
    );
    assert!(instantiate(Rc::clone(&appx0x0), &[0], &[Rc::clone(&x0)]).unwrap() == appx0x0);
    assert!(instantiate(Rc::clone(&appx0x0), &[1], &[Rc::clone(&x0)]).unwrap() == appx0x0);
    assert!(instantiate(Rc::clone(&existsx0x0), &[0], &[Rc::clone(&X0)]).unwrap() == existsx0x0);
    assert!(instantiate(Rc::clone(&existsx0x0), &[1], &[Rc::clone(&X0)]).unwrap() == existsx0x0);
    assert!(instantiate(Rc::clone(&muX0x0), &[0], &[Rc::clone(&x0)]).unwrap() == muX0x0);
    assert!(instantiate(Rc::clone(&muX0x0), &[1], &[Rc::clone(&x0)]).unwrap() == muX0x0);

    let phi0 = metavar_unconstrained(0);
    let phi0_implies_phi0 = implies(Rc::clone(&phi0), Rc::clone(&phi0));
    let appphi0phi0 = app(Rc::clone(&x0), Rc::clone(&x0));
    let existsx0phi0 = exists_pat(0, Rc::clone(&phi0));
    let muX0phi0 = mu(0, Rc::clone(&phi0));
    let existsx0X0 = exists_pat(0, Rc::clone(&X0));
    assert!(
        instantiate(Rc::clone(&phi0_implies_phi0), &[0], &[Rc::clone(&x0)]).unwrap()
            == x0_implies_x0
    );
    assert!(
        instantiate(Rc::clone(&phi0_implies_phi0), &[1], &[Rc::clone(&x0)]).unwrap()
            == phi0_implies_phi0
    );
    assert!(instantiate(Rc::clone(&appphi0phi0), &[0], &[Rc::clone(&x0)]).unwrap() == appx0x0);
    assert!(instantiate(Rc::clone(&appphi0phi0), &[1], &[Rc::clone(&x0)]).unwrap() == appphi0phi0);
    assert!(instantiate(Rc::clone(&existsx0phi0), &[0], &[Rc::clone(&x0)]).unwrap() == existsx0x0);
    assert!(
        instantiate(Rc::clone(&existsx0phi0), &[1], &[Rc::clone(&x0)]).unwrap() == existsx0phi0
    );
    assert!(instantiate(Rc::clone(&muX0phi0), &[0], &[Rc::clone(&x0)]).unwrap() == muX0x0);
    assert!(instantiate(Rc::clone(&muX0phi0), &[1], &[Rc::clone(&x0)]).unwrap() == muX0phi0);

    // Simultaneous instantiations
    let phi1 = metavar_unconstrained(1);
    let muX0phi1 = mu(0, Rc::clone(&phi1));
    let muX0X0 = mu(0, Rc::clone(&X0));
    // Empty substs have no effect
    assert!(
        instantiate(
            Rc::clone(&existsx0phi0),
            &[1, 2],
            &[Rc::clone(&x0), Rc::clone(&X0)]
        )
        .unwrap()
            == existsx0phi0
    );
    assert!(
        instantiate(
            Rc::clone(&existsx0phi0),
            &[2, 1],
            &[Rc::clone(&x0), Rc::clone(&X0)]
        )
        .unwrap()
            == existsx0phi0
    );
    assert!(
        instantiate(
            Rc::clone(&muX0phi0),
            &[1, 2],
            &[Rc::clone(&x0), Rc::clone(&X0)]
        )
        .unwrap()
            == muX0phi0
    );
    assert!(
        instantiate(
            Rc::clone(&muX0phi0),
            &[2, 1],
            &[Rc::clone(&x0), Rc::clone(&X0)]
        )
        .unwrap()
            == muX0phi0
    );

    // Order matters if corresponding value is not moved
    assert!(
        instantiate(
            Rc::clone(&existsx0phi0),
            &[1, 0],
            &[Rc::clone(&x0), Rc::clone(&X0)]
        )
        .unwrap()
            == existsx0X0
    );
    assert!(
        instantiate(
            Rc::clone(&existsx0phi0),
            &[0, 1],
            &[Rc::clone(&x0), Rc::clone(&X0)]
        )
        .unwrap()
            == existsx0x0
    );
    assert!(
        instantiate(
            Rc::clone(&muX0phi0),
            &[1, 0],
            &[Rc::clone(&x0), Rc::clone(&X0)]
        )
        .unwrap()
            == muX0X0
    );
    assert!(
        instantiate(
            Rc::clone(&muX0phi0),
            &[0, 1],
            &[Rc::clone(&x0), Rc::clone(&X0)]
        )
        .unwrap()
            == muX0x0
    );

    // Order does not matter if corresponding value is moved
    let muX0phi0_implies_ph1 = implies(Rc::clone(&muX0phi0), Rc::clone(&phi1));
    let muX0x0_implies_X0 = implies(Rc::clone(&muX0x0), Rc::clone(&X0));
    assert!(
        instantiate(
            Rc::clone(&muX0phi0_implies_ph1),
            &[0, 1],
            &[Rc::clone(&x0), Rc::clone(&X0)]
        )
        .unwrap()
            == muX0x0_implies_X0
    );
    assert!(
        instantiate(
            Rc::clone(&muX0phi0_implies_ph1),
            &[1, 0],
            &[Rc::clone(&X0), Rc::clone(&x0)]
        )
        .unwrap()
            == muX0x0_implies_X0
    );
    let muX0phi0_app_ph1 = app(Rc::clone(&muX0phi0), Rc::clone(&phi1));
    let muX0x0_app_X0 = app(Rc::clone(&muX0x0), Rc::clone(&X0));
    assert!(
        instantiate(
            Rc::clone(&muX0phi0_app_ph1),
            &[0, 1],
            &[Rc::clone(&x0), Rc::clone(&X0)]
        )
        .unwrap()
            == muX0x0_app_X0
    );
    assert!(
        instantiate(
            Rc::clone(&muX0phi0_app_ph1),
            &[1, 0],
            &[Rc::clone(&X0), Rc::clone(&x0)]
        )
        .unwrap()
            == muX0x0_app_X0
    );

    // No side-effects
    let muX0ph1_implies_X0 = implies(Rc::clone(&muX0phi1), Rc::clone(&X0));
    assert!(
        instantiate(
            Rc::clone(&muX0phi0_implies_ph1),
            &[0, 1],
            &[Rc::clone(&phi1), Rc::clone(&X0)]
        )
        .unwrap()
            == muX0ph1_implies_X0
    );
    assert!(
        instantiate(
            Rc::clone(&muX0phi0_implies_ph1),
            &[1, 0],
            &[Rc::clone(&X0), Rc::clone(&phi1)]
        )
        .unwrap()
            == muX0ph1_implies_X0
    );
    let muX0ph1_app_X0 = app(Rc::clone(&muX0phi1), Rc::clone(&X0));
    assert!(
        instantiate(
            Rc::clone(&muX0phi0_app_ph1),
            &[0, 1],
            &[Rc::clone(&phi1), Rc::clone(&X0)]
        )
        .unwrap()
            == muX0ph1_app_X0
    );
    assert!(
        instantiate(
            Rc::clone(&muX0phi0_app_ph1),
            &[1, 0],
            &[Rc::clone(&X0), Rc::clone(&phi1)]
        )
        .unwrap()
            == muX0ph1_app_X0
    );

    // First comes first
    assert!(
        instantiate(
            Rc::clone(&muX0phi0_app_ph1),
            &[0, 1, 1],
            &[Rc::clone(&phi1), Rc::clone(&X0), Rc::clone(&x0)]
        )
        .unwrap()
            == muX0ph1_app_X0
    );
    assert!(
        instantiate(
            Rc::clone(&muX0phi0_app_ph1),
            &[1, 0, 0],
            &[Rc::clone(&X0), Rc::clone(&phi1), Rc::clone(&x0)]
        )
        .unwrap()
            == muX0ph1_app_X0
    );

    // Extra values are ignored
    assert!(
        instantiate(
            Rc::clone(&muX0phi0_app_ph1),
            &[0, 1, 1],
            &[
                Rc::clone(&phi1),
                Rc::clone(&X0),
                Rc::clone(&x0),
                Rc::clone(&x0),
                Rc::clone(&x0),
                Rc::clone(&x0),
                Rc::clone(&x0),
                Rc::clone(&x0)
            ]
        )
        .unwrap()
            == muX0ph1_app_X0
    );
    assert!(
        instantiate(
            Rc::clone(&muX0phi0_app_ph1),
            &[0, 1, 2],
            &[Rc::clone(&phi1), Rc::clone(&X0)]
        )
        .unwrap()
            == muX0ph1_app_X0
    );

    // Instantiate with concrete patterns applies pending substitutions
    assert_eq!(
        instantiate(
            esubst(Rc::clone(&phi0), 0, Rc::clone(&c0)),
            &[0],
            &[Rc::clone(&x0)]
        )
        .unwrap(),
        c0
    );
    assert_eq!(
        instantiate(
            ssubst(Rc::clone(&phi0), 0, Rc::clone(&c0)),
            &[0],
            &[Rc::clone(&X0)]
        )
        .unwrap(),
        c0
    );
    assert_eq!(
        instantiate(
            ssubst(
                Rc::clone(&esubst(Rc::clone(&phi0), 0, Rc::clone(&X0))),
                0,
                Rc::clone(&c0)
            ),
            &[0],
            &[Rc::clone(&X0)]
        )
        .unwrap(),
        c0
    );

    // Instantiate with metavar keeps pending substitutions
    assert_eq!(
        instantiate(
            esubst(Rc::clone(&phi0), 0, Rc::clone(&c0)),
            &[0],
            &[Rc::clone(&phi1)]
        )
        .unwrap(),
        esubst(Rc::clone(&phi1), 0, Rc::clone(&c0))
    );
    assert_eq!(
        instantiate(
            ssubst(Rc::clone(&phi0), 0, Rc::clone(&c0)),
            &[0],
            &[Rc::clone(&phi1)]
        )
        .unwrap(),
        ssubst(Rc::clone(&phi1), 0, Rc::clone(&c0))
    );

    // The plug in a subst. needs to be instantiated as well
    assert_eq!(
        instantiate(
            ssubst(Rc::clone(&phi0), 0, Rc::clone(&phi0)),
            &[0],
            &[Rc::clone(&X0)]
        )
        .unwrap(),
        X0
    );
    assert_eq!(
        instantiate(
            ssubst(Rc::clone(&phi0), 0, Rc::clone(&phi1)),
            &[0, 1],
            &[Rc::clone(&X0), Rc::clone(&c0)]
        )
        .unwrap(),
        c0
    );
}

#[test]
fn test_instantiate_fresh() {
    let svar_0 = svar(0);
    let phi0_s_fresh_0 = metavar_s_fresh(0, 0, vec![0], vec![0]);
    assert_eq!(
        instantiate(phi0_s_fresh_0, &[0], &[svar_0]),
        Err(CheckError::InstantiationConstraintBroken)
    );
}

#[test]
fn test_illformed_instantiation() {
    let phi0 = metavar_unconstrained(0);

    assert_eq!(
        instantiate(Rc::clone(&phi0), &[1, 0], &[Rc::clone(&phi0)]),
        Err(CheckError::InstantiationConstraintBroken)
    );
}

#[test]
fn test_apply_esubst() {
    // Define test cases as tuples of input pattern, evar_id, plug, and
    // expected pattern
    let test_cases: Vec<(Rc<Pattern>, u8, Rc<Pattern>, Rc<Pattern>)> = vec![
        // Atomic cases
        (evar(0), 0, symbol(1), symbol(1)),
        (evar(0), 0, evar(2), evar(2)),
        (evar(0), 1, evar(2), evar(0)),
        (svar(0), 0, symbol(0), svar(0)),
        (svar(1), 0, evar(0), svar(1)),
        (symbol(0), 0, symbol(1), symbol(0)),
        // Distribute over subpatterns
        (
            implies(evar(7), symbol(1)),
            7,
            symbol(0),
            implies(symbol(0), symbol(1)),
        ),
        (
            implies(evar(7), symbol(1)),
            6,
            symbol(0),
            implies(evar(7), symbol(1)),
        ),
        (
            app(evar(7), symbol(1)),
            7,
            symbol(0),
            app(symbol(0), symbol(1)),
        ),
        (
            app(evar(7), symbol(1)),
            6,
            symbol(0),
            app(evar(7), symbol(1)),
        ),
        // Distribute over subpatterns unless evar_id = binder
        (exists_pat(1, evar(1)), 0, symbol(2), exists_pat(1, evar(1))),
        (exists_pat(0, evar(1)), 1, symbol(2), exists_pat(0, symbol(2))),
        (mu(1, evar(1)), 0, symbol(2), mu(1, evar(1))),
        (mu(1, evar(1)), 1, symbol(2), mu(1, symbol(2))),
        // Subst on metavar should wrap in constructor
        (
            metavar_unconstrained(0),
            0,
            symbol(1),
            esubst(metavar_unconstrained(0), 0, symbol(1)),
        ),
        // Subst on substs should stack
        (
            esubst(metavar_unconstrained(0), 0, symbol(1)),
            0,
            symbol(1),
            esubst(esubst(metavar_unconstrained(0), 0, symbol(1)), 0, symbol(1)),
        ),
        (
            ssubst(metavar_unconstrained(0), 0, symbol(1)),
            0,
            symbol(1),
            esubst(ssubst(metavar_unconstrained(0), 0, symbol(1)), 0, symbol(1)),
        ),
    ];

    // Iterate over the test cases
    for (pattern, evar_id, plug, expected) in test_cases.iter() {
        let result = apply_esubst(pattern, *evar_id, plug);

        assert_eq!(result, *expected);
    }
}

#[test]
fn test_apply_ssubst() {
    let test_cases: Vec<(Rc<Pattern>, u8, Rc<Pattern>, Rc<Pattern>)> = vec![
        // Atomic cases
        (evar(0), 0, symbol(1), evar(0)),
        (evar(0), 1, evar(2), evar(0)),
        (svar(0), 0, symbol(0), symbol(0)),
        (svar(1), 0, evar(0), svar(1)),
        (symbol(0), 0, symbol(1), symbol(0)),
        // Distribute over subpatterns
        (
            implies(svar(7), symbol(1)),
            7,
            symbol(0),
            implies(symbol(0), symbol(1)),
        ),
        (
            implies(svar(7), symbol(1)),
            6,
            symbol(0),
            implies(svar(7), symbol(1)),
        ),
        (
            app(svar(7), symbol(1)),
            7,
            symbol(0),
            app(symbol(0), symbol(1)),
        ),
        (
            app(svar(7), symbol(1)),
            6,
            symbol(0),
            app(svar(7), symbol(1)),
        ),
        // Distribute over subpatterns unless svar_id = binder
        (exists_pat(1, svar(0)), 0, symbol(2), exists_pat(1, symbol(2))),
        (exists_pat(1, symbol(1)), 1, symbol(2), exists_pat(1, symbol(1))),
        (mu(1, svar(1)), 0, symbol(2), mu(1, svar(1))),
        (mu(1, svar(1)), 1, symbol(2), mu(1, svar(1))),
        (mu(1, svar(2)), 2, symbol(2), mu(1, symbol(2))),
        // Subst on metavar should wrap in constructor
        (
            metavar_unconstrained(0),
            0,
            symbol(1),
            ssubst(metavar_unconstrained(0), 0, symbol(1)),
        ),
        // Subst on substs should stack
        (
            esubst(metavar_unconstrained(0), 0, symbol(1)),
            0,
            symbol(1),
            ssubst(esubst(metavar_unconstrained(0), 0, symbol(1)), 0, symbol(1)),
        ),
        (
            ssubst(metavar_unconstrained(0), 0, symbol(1)),
            0,
            symbol(1),
            ssubst(ssubst(metavar_unconstrained(0), 0, symbol(1)), 0, symbol(1)),
        ),
    ];

    for (pattern, svar_id, plug, expected) in test_cases {
        assert_eq!(apply_ssubst(&pattern, svar_id, &plug), expected);
    }
}
