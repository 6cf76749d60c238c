use presburger::lin_expr::{LinExpr, LinExprError};
use presburger::lin_rel::{Constraint, LinRel};
use presburger::rational::Rational;

fn lin(v: &[i64]) -> LinExpr {
    LinExpr::new(v.iter().map(|&x| Rational::from_i64(x)).collect()).unwrap()
}

fn r(x: i64) -> Rational {
    Rational::from_i64(x)
}

#[test]
fn lin_rel_lin_eq_basic_api() {
    let eq1 = LinRel::mk_eq(
        LinExpr::new(vec![r(0), r(1), r(2), r(0)]).expect("failed to create linear equality"),
    );
    assert_eq!(eq1.nvars(), 3);
    assert_eq!(eq1.is_subs(), Some(1));
    assert!(eq1.is_subs_for(1)); // subs: coeff of x_1 is 1
    assert!(eq1.is_subs_for(2)); // subs: coeff of x_2 is 2
    assert!(!eq1.is_subs_for(3)); // not subs: coeff of x_3 is 0
}

// 3 x_1 + 4 x_2 <= 0 and -3 x_1 + x_2 = 0: substituting x_2 = 3 x_1 gives 15 x_1 <= 0
#[test]
fn lin_rel_lin_eq_subs_2() {
    let slf = LinRel::mk_le(
        LinExpr::new(vec![r(0), r(3), r(4)]).expect("failed to create linear expression"),
    );
    let other = LinRel::mk_eq(
        LinExpr::new(vec![r(0), r(-3), r(1)]).expect("failed to create linear expression"),
    );
    assert_eq!(slf.nvars(), 2);
    assert_eq!(other.nvars(), 2);
    let result = slf.subs(2, &other).expect("subs failed");
    assert_eq!(result.nvars(), 2);
    assert_eq!(result.coeffs(), &[r(15), Rational::zero()]);
    assert_eq!(result.const_(), &r(0));
    assert!(!result.lhs().supported(2));
}

// 3 x_1 + 4 x_2 <= 0 and -3 x_1 + x_2 + 2 x_3 = 0 give 15 x_1 - 8 x_3 <= 0
#[test]
fn lin_rel_lin_eq_subs_3() {
    let slf = LinRel::mk_le(
        LinExpr::new(vec![r(0), r(3), r(4), r(0)]).expect("failed to create linear equality"),
    );
    let other = LinRel::mk_eq(
        LinExpr::new(vec![r(0), r(-3), r(1), r(2)]).expect("failed to create linear equality"),
    );
    let result = slf.subs(2, &other).expect("subs failed");
    assert_eq!(result.nvars(), 3);
    assert_eq!(result.coeffs(), &[r(15), r(0), r(-8)]);
    assert_eq!(result.const_(), &Rational::zero());
    assert!(!result.lhs().supported(2));
}

// -1 + 3 x_1 + 5 x_2 = 0 and 7 - x_1 + x_2 = 0: eliminating x_1 leaves 20 + 8 x_2 = 0
#[test]
fn lin_rel_lin_eq_subs_const() {
    let eq1 = LinRel::mk_eq(LinExpr::new(vec![r(-1), r(3), r(5)]).unwrap());
    let eq2 = LinRel::mk_eq(LinExpr::new(vec![r(7), r(-1), r(1)]).unwrap());
    let eq3 = eq1.subs(1, &eq2).expect("subs failed");
    assert_eq!(eq3.coeffs(), &[r(0), r(8)]);
    assert_eq!(eq3.const_(), &r(20));
    assert!(!eq3.lhs().supported(1));
    assert!(eq3.lhs().supported(2));
}

#[test]
fn lin_rel_subs_with_rational_pivot() {
    // x_1 + x_2 <= 0 and 2 x_1 + x_2 = 0: x_1 = -x_2 / 2 gives (1/2) x_2 <= 0
    let le = LinRel::mk_le(lin(&[0, 1, 1]));
    let eq = LinRel::mk_eq(lin(&[0, 2, 1]));
    let res = le.subs(1, &eq).unwrap();
    assert_eq!(res.coeffs(), &[r(0), Rational::ratio(1, 2)]);
    assert_eq!(res.constraint(), Constraint::Le);
    // 1 + 3 x_1 = 0 and 2 + 6 x_1 + 3 x_2 = 0 for x_1: 1 - (1/6)*3*2 ... = 0 - (3/2) x_2
    let a = LinRel::mk_eq(lin(&[1, 3, 0]));
    let b = LinRel::mk_eq(lin(&[2, 6, 3]));
    let res = a.subs(1, &b).unwrap();
    assert_eq!(res.const_(), &r(0));
    assert_eq!(res.coeffs(), &[r(0), Rational::ratio(-3, 2)]);
    assert!(res.is_equality());
}

#[test]
fn lin_rel_subs_errors() {
    let le = LinRel::mk_le(lin(&[0, 1, 1]));
    let other_le = LinRel::mk_le(lin(&[0, 2, 1]));
    assert_eq!(le.subs(1, &other_le).unwrap_err(), LinExprError::AssertionError);
    let le = LinRel::mk_le(lin(&[0, 1, 1]));
    let eq = LinRel::mk_eq(lin(&[0, 0, 1]));
    assert_eq!(le.subs(1, &eq).unwrap_err(), LinExprError::AssertionError);
    let le = LinRel::mk_le(lin(&[0, 1, 1]));
    assert_eq!(le.subs(3, &eq).unwrap_err(), LinExprError::IndexOutOfBounds);
}

#[test]
fn lin_rel_is_subs_for_inequality_is_false() {
    let le = LinRel::mk_le(lin(&[0, 1, 1]));
    assert_eq!(le.is_subs(), None);
    assert!(!le.is_subs_for(1));
    let eq = LinRel::mk_eq(lin(&[4, 0, 0]));
    assert_eq!(eq.is_subs(), None);
    let eq2 = LinRel::mk_eq(lin(&[4, 0, 0, 0]));
    assert_eq!(eq, eq2);
    assert_ne!(eq, LinRel::mk_le(lin(&[4])));
}

#[test]
fn lin_rel_text() {
    assert_eq!(LinRel::mk_le(lin(&[0, 15, 0, -8])).to_text(), "15 x_1 + (-8) x_3 <= 0");
    assert_eq!(LinRel::mk_eq(lin(&[20, 0, 8])).to_text(), "20 + 8 x_2 = 0");
    assert_eq!(Constraint::Le.to_text(), "<=");
    assert_eq!(Constraint::Eq.to_text(), "=");
}
