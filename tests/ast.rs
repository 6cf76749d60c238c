use presburger::ast::{Atom, Formula, Term, Var};
use presburger::rational::Rational;

#[test]
fn test_var_eq() {
    let v1 = Var::new("x");
    let v2 = Var::new("x");
    assert_eq!(v1, v2);
}

#[test]
fn test_var_neq() {
    let v1 = Var::new("x");
    let v2 = Var::new("y");
    assert!(v1 != v2);

    let v3 = Var::new("X");
    assert!(v1 != v3);
}

#[test]
fn term_eq() {
    let t0 = Term::num(Rational::from_i64(0));
    let t1 = Term::num(Rational::from_i64(1));
    let t2 = Term::num(Rational::from_i64(2));

    assert_eq!(t0, t0);
    assert!(t0 != t1);
    assert!(t0 != t2);

    let t4 = Term::scalar_var(Rational::from_i64(1), "x"); // x
    assert_eq!(t4, t4);
    assert_ne!(t0, t4);
    let t5 = Term::tadd(
        Term::scalar_var(Rational::from_i64(1), "x"),
        Term::num(Rational::from_i64(1)),
    ); // x + 1
    assert_eq!(t5, t5);
    assert_ne!(t0, t5);
    assert_ne!(t4, t5);
}

#[test]
fn atom_eq() {
    let zero = Term::num(Rational::from_i64(0));
    let a1 = Atom::truth(true);
    let a2 = Atom::truth(false);
    let a3 = Atom::var("P");
    let a4 = Atom::equality(zero.clone(), zero.clone());
    let a5 = Atom::equality(zero.clone(), zero.clone()); // intentionally same as a4

    assert_eq!(a1, a1);
    assert_eq!(a2, a2);
    assert_eq!(a3, a3);
    assert_eq!(a4, a4);
    assert_eq!(a4, a5);

    assert!(a1 != a2);
    assert!(a1 != a3);
    assert!(a1 != a4);
}

#[test]
fn pred_eq() {
    let p1 = Formula::atom(Atom::truth(true));
    let p2 = Formula::atom(Atom::var("P"));
    let p2_ = Formula::atom(Atom::var("P"));
    let p3 = Formula::fnot(p1.clone());
    let p4 = Formula::fnot(p2.clone()); // not P
    let p4_ = Formula::fnot(p2_.clone()); // also not P
    let p5 = Formula::and(p3.clone(), p4.clone()); // not True AND not P

    assert_eq!(p1, p1);
    assert_eq!(p2, p2);
    assert_eq!(p2, p2_);
    assert_eq!(p3, p3);
    assert_eq!(p4, p4);
    assert_eq!(p4, p4_);
    assert_eq!(p5, p5);
}

#[test]
fn term_rational_literals_compare_by_value() {
    // 2/4 is stored as 1/2, so the two literals are the same term
    let a = Term::num(Rational::ratio(2, 4));
    let b = Term::num(Rational::ratio(1, 2));
    let c = Term::num(Rational::ratio(-1, -2));
    assert_eq!(a, b);
    assert_eq!(a, c);
    assert_ne!(a, Term::num(Rational::ratio(1, 3)));
}

#[test]
fn formula_quantifiers_compare_bound_variable() {
    let body = Formula::atom(Atom::var("P"));
    let e1 = Formula::fexists(Var::new("x"), body.clone());
    let e2 = Formula::fexists(Var::new("y"), body.clone());
    let f1 = Formula::fforall(Var::new("x"), body.clone());
    assert_ne!(e1, e2);
    assert_ne!(e1, f1);
    assert_eq!(e1, e1.clone());
    assert_ne!(
        Formula::implies(body.clone(), body.clone()),
        Formula::iff(body.clone(), body.clone())
    );
}

#[test]
fn rational_sign_and_size() {
    let big = Rational::from_i64(i64::MIN);
    assert!(big.is_negative());
    assert!(!big.is_zero());
    assert_eq!(big.neg().neg(), big);
    assert!(big.neg().is_positive());
    assert_eq!(Rational::from_i64(0), Rational::zero());
    assert_eq!(Rational::from_i64(1), Rational::one());
    assert!(Rational::ratio(6, -3) == Rational::from_i64(-2));
    assert!(Rational::from_i64(-1).is_unit());
    assert!(!Rational::ratio(1, 2).is_unit());
    assert_eq!(Rational::zero().neg(), Rational::zero());
}

#[test]
fn formula_text_is_fully_parenthesised() {
    let t = Term::tadd(Term::scalar_var(Rational::one(), "x"), Term::num(Rational::one()));
    assert_eq!(t.to_text(), "(1 x + 1)");
    let a = Atom::less_eq(
        Term::scalar_var(Rational::from_i64(3), "y"),
        Term::num(Rational::ratio(-1, 2)),
    );
    assert_eq!(a.to_text(), "3 y <= -1/2");
    assert_eq!(Atom::equality(t.clone(), t.clone()).to_text(), "(1 x + 1) == (1 x + 1)");
    let f = Formula::fforall(
        Var::new("A"),
        Formula::fnot(Formula::atom(Atom::truth(false))),
    );
    assert_eq!(f.to_text(), "(∀A. ~(false))");
    let g = Formula::iff(
        Formula::and(Formula::atom(Atom::var("P")), Formula::atom(Atom::var("Q"))),
        Formula::fexists(
            Var::new("x"),
            Formula::or(
                Formula::atom(a),
                Formula::implies(Formula::atom(Atom::truth(true)), Formula::atom(Atom::var("R"))),
            ),
        ),
    );
    assert_eq!(
        g.to_text(),
        "(((P) /\\ (Q)) <==> (∃x. ((3 y <= -1/2) \\/ ((true) ==> (R)))))"
    );
}
