use presburger::ast::{Atom, Formula, Term, Var};
use presburger::nnf::{remove_impl, to_nnf, verify_nnf};
use presburger::rational::Rational;

#[test]
fn nnf_double_not() {
    let pvar = Formula::atom(Atom::var("P"));
    let p = Formula::fnot(Formula::fnot(pvar.clone()));
    let n = to_nnf(p);

    // to_nnf(~(~P)) == P
    assert_eq!(n, pvar);
    assert!(verify_nnf(&n));
}

#[test]
fn nnf_not_and() {
    let pvar = Formula::atom(Atom::var("P"));
    let qvar = Formula::atom(Atom::var("Q"));
    let p = Formula::fnot(Formula::and(pvar.clone(), qvar.clone()));
    let n = to_nnf(p);
    let expected = Formula::or(Formula::fnot(pvar), Formula::fnot(qvar));

    // to_nnf(~(P /\ Q)) equals ~P \/ ~Q
    assert_eq!(n, expected);
    assert!(verify_nnf(&n));
    assert!(verify_nnf(&expected));
}

#[test]
fn nnf_impl() {
    let pvar = Formula::atom(Atom::var("P"));
    let qvar = Formula::atom(Atom::var("Q"));
    let i = Formula::implies(pvar.clone(), qvar.clone());
    let n = to_nnf(i);
    let expected = Formula::or(Formula::fnot(pvar), qvar);

    // to_nnf(P ==> Q) equals ~P \/ Q
    assert_eq!(n, expected);
    assert!(verify_nnf(&n));
    assert!(verify_nnf(&expected));

    // ((exists A. false) ==> false) is equivalent to
    // (~(exists A. false) \/ false), that is
    // ((forall A. ~false) \/ false)
    let formula = Formula::implies(
        Formula::fexists(Var::new("A"), Formula::atom(Atom::truth(false))),
        Formula::atom(Atom::truth(false)),
    );
    let n = to_nnf(formula);
    let expected = Formula::or(
        Formula::fforall(
            Var::new("A"),
            Formula::fnot(Formula::atom(Atom::truth(false))),
        ),
        Formula::atom(Atom::truth(false)),
    );
    assert!(verify_nnf(&n));
    assert_eq!(n, expected);
}

fn sample_formula() -> Formula {
    // ~((P <=> forall x. x <= 0) /\ ~(exists y. Q ==> 0 = y))
    let le = Formula::atom(Atom::less_eq(
        Term::scalar_var(Rational::one(), "x"),
        Term::num(Rational::zero()),
    ));
    let eq = Formula::atom(Atom::equality(
        Term::num(Rational::zero()),
        Term::scalar_var(Rational::one(), "y"),
    ));
    Formula::fnot(Formula::and(
        Formula::iff(
            Formula::atom(Atom::var("P")),
            Formula::fforall(Var::new("x"), le),
        ),
        Formula::fnot(Formula::fexists(
            Var::new("y"),
            Formula::implies(Formula::atom(Atom::var("Q")), eq),
        )),
    ))
}

#[test]
fn nnf_result_is_nnf_and_idempotent() {
    let n = to_nnf(sample_formula());
    assert!(verify_nnf(&n));
    assert!(!verify_nnf(&sample_formula()));
    assert_eq!(to_nnf(n.clone()), n);
}

#[test]
fn nnf_de_morgan_or() {
    let p = Formula::atom(Atom::var("P"));
    let q = Formula::atom(Atom::var("Q"));
    let lhs = to_nnf(Formula::fnot(Formula::or(p.clone(), q.clone())));
    let rhs = to_nnf(Formula::and(Formula::fnot(p.clone()), Formula::fnot(q.clone())));
    assert_eq!(lhs, rhs);
    assert_eq!(lhs, Formula::and(Formula::fnot(p), Formula::fnot(q)));
}

#[test]
fn nnf_negated_forall_becomes_exists() {
    let p = Formula::atom(Atom::var("P"));
    let q = Formula::atom(Atom::var("Q"));
    // ~(forall v. P /\ ~Q)  ->  exists v. ~P \/ Q
    let f = Formula::fnot(Formula::fforall(
        Var::new("v"),
        Formula::and(p.clone(), Formula::fnot(q.clone())),
    ));
    let expected = Formula::fexists(Var::new("v"), Formula::or(Formula::fnot(p), q));
    assert_eq!(to_nnf(f), expected);
}

#[test]
fn remove_impl_rewrites_iff() {
    let p = Formula::atom(Atom::var("P"));
    let q = Formula::atom(Atom::var("Q"));
    let r = remove_impl(Formula::iff(p.clone(), q.clone()));
    let expected = Formula::and(
        Formula::or(Formula::fnot(p.clone()), q.clone()),
        Formula::or(Formula::fnot(q.clone()), p.clone()),
    );
    assert_eq!(r, expected);
    // a formula without implications is left alone
    let g = Formula::fnot(Formula::and(p.clone(), q.clone()));
    assert_eq!(remove_impl(g.clone()), g);
    assert!(!verify_nnf(&g));
}
