use presburger::lin_expr::{LinEq, LinExpr, LinExprError};
use presburger::rational::Rational;

fn ints(v: &[i64]) -> Vec<Rational> {
    v.iter().map(|&x| Rational::from_i64(x)).collect()
}

fn q(x: i64) -> Rational {
    Rational::from_i64(x)
}

fn expr(v: &[i64]) -> LinExpr {
    LinExpr::new(ints(v)).expect("non-empty coefficients")
}

#[test]
fn lin_expr_basic_api() {
    let e1 = expr(&[1, 0, 1]);
    assert_eq!(e1.nvars(), 2);
    assert_eq!(e1.const_(), &q(1));
    assert_eq!(e1.coeff(1).unwrap(), &q(0));
    assert_eq!(e1.coeff(2).unwrap(), &q(1));

    assert!(!e1.supported(1));
    assert!(e1.supported(2));

    // out of bounds
    assert!(!e1.supported(0)); // index 0 is the constant
    assert!(!e1.supported(3));
}

#[test]
fn lin_expr_add_var() {
    let mut e1 = expr(&[1, 0, 1]);
    e1.add_var(q(3));
    assert_eq!(e1.nvars(), 3);
    assert_eq!(e1.coeff(2).unwrap(), &q(1));
    assert_eq!(e1.coeff(3).unwrap(), &q(3));
    assert!(e1.supported(3));

    let mut e2 = LinExpr::new_zeros(0);
    assert_eq!(e2.nvars(), 0);
    assert_eq!(e2.const_(), &q(0));
    assert!(e2.coeff(1).is_err());
    assert!(!e2.supported(1));
    e2.add_var(q(-1));
    assert_eq!(e2.nvars(), 1);
    assert_eq!(e2.const_(), &q(0));
    assert_eq!(e2.coeff(1).unwrap(), &q(-1));
    assert!(e2.supported(1));
}

#[test]
fn lin_expr_lin_eq_basic_api() {
    let eq1 = LinEq::new(expr(&[0, 1, 2]));
    assert_eq!(eq1.nvars(), 2);
    assert_eq!(eq1.is_subs(), Some(1));
    assert!(eq1.is_subs_for(1)); // subs: coeff of x_1 is 1
    assert!(!eq1.is_subs_for(2)); // not subs: coeff of x_2 is 2
}

// 3 x_1 + 4 x_2 = 0 and -3 x_1 + x_2 = 0: substituting x_2 = 3 x_1 gives 15 x_1 = 0
#[test]
fn lin_expr_lin_eq_subs_2() {
    let eq1 = LinEq::new(expr(&[0, 3, 4]));
    let eq2 = LinEq::new(expr(&[0, -3, 1]));
    assert_eq!(eq1.nvars(), 2);
    assert_eq!(eq2.nvars(), 2);
    let eq3 = eq1.subs(2, &eq2).expect("subs failed");
    assert_eq!(eq3.nvars(), 2);
    assert_eq!(eq3.coeffs(), &[q(15), q(0)]);
    assert_eq!(eq3.const_(), &q(0));
    assert!(!eq3.lhs().supported(2));
}

// 3 x_1 + 4 x_2 = 0 and -3 x_1 + x_2 + 2 x_3 = 0 give 15 x_1 - 8 x_3 = 0
#[test]
fn lin_expr_lin_eq_subs_3() {
    let eq1 = LinEq::from_coeffs(ints(&[0, 3, 4, 0])).unwrap();
    let eq2 = LinEq::from_coeffs(ints(&[0, -3, 1, 2])).unwrap();
    let eq3 = eq1.subs(2, &eq2).expect("subs failed");
    assert_eq!(eq3.nvars(), 3);
    assert_eq!(eq3.coeffs(), &[q(15), q(0), q(-8)]);
    assert_eq!(eq3.const_(), &q(0));
    assert!(!eq3.lhs().supported(2));
}

// -1 + 3 x_1 + 5 x_2 = 0 and 7 - x_1 + x_2 = 0: eliminating x_1 leaves 20 + 8 x_2 = 0
#[test]
fn lin_expr_lin_eq_subs_const() {
    let eq1 = LinEq::from_coeffs(ints(&[-1, 3, 5])).unwrap();
    let eq2 = LinEq::from_coeffs(ints(&[7, -1, 1])).unwrap();
    let eq3 = eq1.subs(1, &eq2).expect("subs failed");
    assert_eq!(eq3.coeffs(), &[q(0), q(8)]);
    assert_eq!(eq3.const_(), &q(20));
    assert!(!eq3.lhs().supported(1));
    assert!(eq3.lhs().supported(2));
}

#[test]
fn lin_expr_equality_ignores_zero_padding() {
    let e0 = expr(&[0, 1, 0]);
    let e1 = expr(&[0, 1]);
    assert_eq!(e0, e0);
    assert_eq!(e0, e1);
    assert_eq!(e1, e0);

    let e2 = expr(&[0, 1, 2]);
    assert_ne!(e0, e2);
    assert_ne!(e1, e2);

    let e3 = expr(&[-1, 1, 2]);
    assert_ne!(e2, e3);
}

#[test]
fn lin_expr_empty_is_refused() {
    assert_eq!(LinExpr::new(Vec::new()).unwrap_err(), LinExprError::CoeffInvalid);
    assert_eq!(LinEq::from_coeffs(Vec::new()).unwrap_err(), LinExprError::CoeffInvalid);
}

#[test]
fn lin_expr_index_errors() {
    let mut e = expr(&[5, 6]);
    assert_eq!(e.coeff(0).unwrap_err(), LinExprError::IndexOutOfBounds);
    assert_eq!(e.coeff(2).unwrap_err(), LinExprError::IndexOutOfBounds);
    assert_eq!(e.set_coeff(2, q(1)).unwrap_err(), LinExprError::IndexOutOfBounds);
    assert_eq!(e.set_coeff(0, q(1)).unwrap_err(), LinExprError::IndexOutOfBounds);
    assert!(e.set_coeff(1, q(-7)).is_ok());
    assert_eq!(e.coeff(1).unwrap(), &q(-7));
    e.set_const(q(9));
    assert_eq!(e.const_(), &q(9));
    e.set_coeff_unchecked(0, q(4));
    assert_eq!(e.coeff_unchecked(0), &q(4));
    assert_eq!(e.coeffs(), &[q(-7)]);
}

#[test]
fn lin_expr_new_zeros_has_all_zero() {
    let e = LinExpr::new_zeros(3);
    assert_eq!(e.nvars(), 3);
    assert_eq!(e, expr(&[0]));
    for i in 1..=3 {
        assert!(!e.supported(i));
    }
}

#[test]
fn lin_eq_subs_errors() {
    // the pivot's coefficient on x_2 is 2, not a unit
    let eq1 = LinEq::from_coeffs(ints(&[0, 3, 4])).unwrap();
    let eq2 = LinEq::from_coeffs(ints(&[0, -3, 2])).unwrap();
    assert_eq!(eq1.subs(2, &eq2).unwrap_err(), LinExprError::AssertionError);
    let eq1 = LinEq::from_coeffs(ints(&[0, 3, 4])).unwrap();
    assert_eq!(eq1.subs(3, &eq2).unwrap_err(), LinExprError::IndexOutOfBounds);
    let eq1 = LinEq::from_coeffs(ints(&[0, 3, 4])).unwrap();
    assert_eq!(eq1.subs(0, &eq2).unwrap_err(), LinExprError::IndexOutOfBounds);
}

#[test]
fn lin_eq_is_subs_none_without_unit() {
    let eq = LinEq::from_coeffs(ints(&[1, 2, 0, -3])).unwrap();
    assert_eq!(eq.is_subs(), None);
    assert!(!eq.is_subs_for(4));
    let eq = LinEq::from_coeffs(ints(&[1, 2, 0, -1])).unwrap();
    assert_eq!(eq.is_subs(), Some(3));
    assert_eq!(eq, LinEq::from_coeffs(ints(&[1, 2, 0, -1, 0])).unwrap());
}

#[test]
fn lin_expr_text_shows_non_zero_terms() {
    assert_eq!(expr(&[0, 1, 0, 2]).to_text(), "1 x_1 + 2 x_3");
    assert_eq!(expr(&[5, 0, 0, -10]).to_text(), "5 + (-10) x_3");
    assert_eq!(expr(&[0, 0]).to_text(), "");
    assert_eq!(expr(&[-3]).to_text(), "-3");
    let e = LinExpr::new(vec![Rational::ratio(1, 2), Rational::ratio(-1, 3), q(0), q(12)]).unwrap();
    assert_eq!(e.to_text(), "1/2 + (-1/3) x_1 + 12 x_3");
    let eq = LinEq::from_coeffs(ints(&[7, -1, 1])).unwrap();
    assert_eq!(eq.to_text(), "7 + (-1) x_1 + 1 x_2 = 0");
}

#[test]
fn lin_expr_text_of_large_coefficient() {
    let e = LinExpr::new(vec![q(0), q(i64::MIN), q(i64::MAX)]).unwrap();
    assert_eq!(
        e.to_text(),
        "(-9223372036854775808) x_1 + 9223372036854775807 x_2"
    );
}

#[test]
fn lin_expr_coeffs_mut_changes_variables_only() {
    let mut e = expr(&[4, 1, 2]);
    {
        let cs = e.coeffs_mut();
        assert_eq!(cs.len(), 2);
        cs[1] = q(-6);
    }
    assert_eq!(e.const_(), &q(4));
    assert_eq!(e.coeff(1).unwrap(), &q(1));
    assert_eq!(e.coeff(2).unwrap(), &q(-6));
}

#[test]
fn lin_expr_error_messages() {
    assert_eq!(LinExprError::IndexOutOfBounds.to_text(), "Coefficient index out of bounds");
    assert_eq!(LinExprError::AssertionError.to_text(), "Assertion error");
    assert_eq!(LinExprError::CoeffInvalid.to_text(), "Coefficient sequence is empty");
}

#[test]
fn lin_expr_text_with_two_digit_index() {
    let mut v = vec![0i64; 13];
    v[10] = 4;
    v[12] = -1;
    assert_eq!(expr(&v).to_text(), "4 x_10 + (-1) x_12");
}
