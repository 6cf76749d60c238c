use presburger::elim::{eliminate_equality, fourier_motzkin};
use presburger::lin_expr::{LinExpr, LinExprError};
use presburger::lin_rel::LinRel;
use presburger::rational::Rational;

fn le(v: &[i64]) -> LinRel {
    LinRel::mk_le(LinExpr::new(v.iter().map(|&x| Rational::from_i64(x)).collect()).unwrap())
}

fn eq(v: &[i64]) -> LinRel {
    LinRel::mk_eq(LinExpr::new(v.iter().map(|&x| Rational::from_i64(x)).collect()).unwrap())
}

/// Integer value of `b + sum a_i x_i` for integer coefficients, read back
/// through the expected relation built from the same integers.
fn holds(coeffs: &[i64], is_eq: bool, env: &[i64]) -> bool {
    let mut v = coeffs[0];
    for i in 1..coeffs.len() {
        v += coeffs[i] * env[i - 1];
    }
    if is_eq {
        v == 0
    } else {
        v <= 0
    }
}

#[test]
fn eliminate_equality_substitutes_into_the_rest() {
    // x1 - x2 = 0, 1 + x1 <= 0, 3 + 2 x2 = 0: with x1 = x2 the rest becomes
    // 1 + x2 <= 0 and 3 + 2 x2 = 0
    let rels = vec![eq(&[0, 1, -1]), le(&[1, 1, 0]), eq(&[3, 0, 2])];
    let out = eliminate_equality(rels, 1).unwrap();
    assert_eq!(out.len(), 2);
    assert_eq!(out[0], le(&[1, 0, 1]));
    assert_eq!(out[1], eq(&[3, 0, 2]));
}

#[test]
fn eliminate_equality_picks_first_pivot() {
    // the first relation does not mention x2; the second one is the pivot
    let rels = vec![le(&[0, 1, 0]), eq(&[-4, 0, 2]), eq(&[0, 1, 1])];
    let out = eliminate_equality(rels, 2).unwrap();
    assert_eq!(out.len(), 2);
    assert_eq!(out[0], le(&[0, 1, 0]));
    // x1 + x2 = 0 with x2 = 2: x1 + 2 = 0
    assert_eq!(out[1], eq(&[2, 1, 0]));
}

#[test]
fn eliminate_equality_without_pivot_fails() {
    let rels = vec![le(&[0, 1, 1]), eq(&[1, 0, 1])];
    assert_eq!(eliminate_equality(rels, 1).unwrap_err(), LinExprError::AssertionError);
    assert_eq!(eliminate_equality(Vec::new(), 1).unwrap_err(), LinExprError::AssertionError);
}

#[test]
fn fourier_motzkin_two_sided_bound() {
    // exists x. x <= y /\ 0 <= x  (x = x1, y = x2): x1 - x2 <= 0, -x1 <= 0
    let rels = vec![le(&[0, 1, -1]), le(&[0, -1, 0])];
    let out = fourier_motzkin(rels, 1);
    assert_eq!(out.len(), 1);
    // 0 <= y
    assert_eq!(out[0], le(&[0, 0, -1]));
}

#[test]
fn fourier_motzkin_keeps_unrelated_and_orders_products() {
    // x2 <= 5 passes through; two upper and two lower bounds on x1
    let rels = vec![
        le(&[-5, 0, 1]),
        le(&[0, 1, -1]),  // x1 <= x2
        le(&[3, -1, 0]),  // 3 <= x1
        le(&[-7, 2, 0]),  // 2 x1 <= 7
        le(&[0, -3, 1]),  // x2 <= 3 x1
    ];
    let out = fourier_motzkin(rels, 1);
    assert_eq!(out.len(), 1 + 2 * 2);
    assert_eq!(out[0], le(&[-5, 0, 1]));
    // (x1 - x2) + (3 - x1)
    assert_eq!(out[1], le(&[3, 0, -1]));
    // 3 (x1 - x2) + (x2 - 3 x1)
    assert_eq!(out[2], le(&[0, 0, -2]));
    // (2 x1 - 7) + 2 (3 - x1)
    assert_eq!(out[3], le(&[-1, 0, 0]));
    // 3 (2 x1 - 7) + 2 (x2 - 3 x1)
    assert_eq!(out[4], le(&[-21, 0, 2]));
}

#[test]
fn fourier_motzkin_one_sided_drops_bounds() {
    let rels = vec![le(&[0, 1, -1]), le(&[4, 2, 0]), le(&[1, 0, 1])];
    let out = fourier_motzkin(rels, 1);
    assert_eq!(out.len(), 1);
    assert_eq!(out[0], le(&[1, 0, 1]));
    let none = fourier_motzkin(Vec::new(), 1);
    assert!(none.is_empty());
}

#[test]
fn fourier_motzkin_matches_brute_force_with_unit_coefficients() {
    // systems over (x1, x2) whose coefficients on x1 are -1, 0 or 1: there the
    // projection is exact over the integers, so for every x2 in a window,
    // some integer x1 satisfies the system iff x2 satisfies the result
    let rows: Vec<[i64; 3]> = vec![
        [-2, 1, -1],
        [3, -1, 0],
        [-9, 1, 0],
        [1, -1, 2],
        [-4, 0, 1],
        [2, 0, -1],
        [0, 1, -3],
    ];
    for mask in 1u32..(1 << rows.len()) {
        let chosen: Vec<[i64; 3]> =
            (0..rows.len()).filter(|i| mask & (1 << i) != 0).map(|i| rows[i]).collect();
        let rels: Vec<LinRel> = chosen.iter().map(|r| le(r)).collect();
        let out = fourier_motzkin(rels, 1);
        // read the result back as integers: every coefficient here is integral
        let outs: Vec<Vec<i64>> = out
            .iter()
            .map(|r| {
                let mut v = vec![int_of(r.const_())];
                v.extend(r.coeffs().iter().map(int_of));
                v
            })
            .collect();
        for x2 in -12..=12i64 {
            let exists = (-40..=40i64).any(|x1| chosen.iter().all(|r| holds(r, false, &[x1, x2])));
            let projected = outs.iter().all(|r| {
                assert_eq!(r[1], 0);
                holds(r, false, &[0, x2])
            });
            assert_eq!(exists, projected, "mask {:b}, x2 = {}", mask, x2);
        }
    }
}

fn int_of(r: &Rational) -> i64 {
    (-1000..=1000i64)
        .find(|&v| *r == Rational::from_i64(v))
        .expect("a small integer")
}

#[test]
fn forall_example_has_no_counterexample() {
    // forall y. x <= y ==> x <= y + 1 holds iff there is no y with
    // x <= y and y + 1 < x, i.e. (over the integers) y + 2 <= x.
    // With x = x1 and y = x2: x1 - x2 <= 0 and 2 - x1 + x2 <= 0.
    let rels = vec![le(&[0, 1, -1]), le(&[2, -1, 1])];
    let out = fourier_motzkin(rels, 2);
    assert_eq!(out.len(), 1);
    // what is left is 2 <= 0: false, so the universal formula is true
    assert_eq!(out[0], le(&[2, 0, 0]));
    assert_eq!(out[0].to_text(), "2 <= 0");
}

#[test]
fn fourier_motzkin_rational_coefficients() {
    // (1/2) x1 - 1 <= 0 and 3 - (1/3) x1 <= 0: 9 <= x1 <= 2, infeasible
    let a = LinRel::mk_le(
        LinExpr::new(vec![Rational::from_i64(-1), Rational::ratio(1, 2)]).unwrap(),
    );
    let b = LinRel::mk_le(
        LinExpr::new(vec![Rational::from_i64(3), Rational::ratio(-1, 3)]).unwrap(),
    );
    let out = fourier_motzkin(vec![a, b], 1);
    assert_eq!(out.len(), 1);
    // (1/3) * (x1/2 - 1) + (1/2) * (3 - x1/3) = 7/6
    assert_eq!(out[0].to_text(), "7/6 <= 0");
}

#[test]
fn substitution_keeps_solutions() {
    // s: x1 + 2 x2 - 7 <= 0, o: x1 - x2 - 1 = 0 (x1 = x2 + 1), eliminate x1
    let s = le(&[-7, 1, 2]);
    let o = eq(&[-1, 1, -1]);
    let r = s.subs(1, &o).unwrap();
    // -6 + 3 x2 <= 0
    assert_eq!(r, le(&[-6, 0, 3]));
    for x2 in -5..=5i64 {
        let x1 = x2 + 1;
        assert_eq!(holds(&[-7, 1, 2], false, &[x1, x2]), holds(&[-6, 0, 3], false, &[x1, x2]));
    }
}
