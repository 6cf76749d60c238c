use presburger::fme::expr::{LExpr, LRel};
use presburger::fme::util::{div_floor, symmod, symmod_alt};

#[test]
fn test_symmod() {
    assert_eq!(symmod(3, 4), -1);
    assert_eq!(symmod(1, 4), 1);
    assert_eq!(symmod(0, 4), 0);
}

#[test]
fn test_symmod_alt() {
    assert_eq!(symmod_alt(3, 4), -1);
    assert_eq!(symmod_alt(1, 4), 1);
    assert_eq!(symmod_alt(0, 4), 0);
}

// a % b == b / 2 in integer division: the comparison with b / 2 must be exact
#[test]
fn test_regression_a_mod_b_vs_b_div_2() {
    let a = 1687;
    let b = 1125;
    assert_eq!(symmod(a, b), symmod_alt(a, b));
}

// the remainder must be the Euclidean one
#[test]
fn test_regression_b_is_minus_a_plus_one() {
    let a = -190459345;
    let b = 190459346;
    assert_eq!(symmod(a, b), symmod_alt(a, b));
}

#[test]
fn test_expr_support() {
    let e1 = LExpr::new(&[1, 0, 1]);
    assert!(e1.supported(0));
    assert!(!e1.supported(1));
    assert!(e1.supported(2));

    // out of bounds
    assert!(!e1.supported(3));
    assert_eq!(e1.nvars(), 3);
    let _ = LRel::mk_eq(LExpr::new(&[1]), LExpr::new(&[2]));
    let _ = LRel::mk_lesseq(LExpr::new(&[1]), LExpr::new(&[2]));
}

#[test]
fn div_floor_rounds_down_for_every_sign() {
    assert_eq!(div_floor(7, 2), 3);
    assert_eq!(div_floor(-7, 2), -4);
    assert_eq!(div_floor(7, -2), -4);
    assert_eq!(div_floor(-7, -2), 3);
    assert_eq!(div_floor(6, 3), 2);
    assert_eq!(div_floor(-6, 3), -2);
    assert_eq!(div_floor(0, -5), 0);
    assert_eq!(div_floor(i64::MIN, 1), i64::MIN);
    assert_eq!(div_floor(i64::MIN, -2), 1 << 62);
    assert_eq!(div_floor(i64::MAX, -1), -i64::MAX);
}

#[test]
fn symmod_agrees_with_alt_on_a_grid() {
    for b in 1..=9i64 {
        for a in -30..=30i64 {
            let s = symmod(a, b);
            assert_eq!(s, symmod_alt(a, b), "a = {}, b = {}", a, b);
            assert!(-b <= 2 * s && 2 * s < b);
            assert_eq!((a - s) % b, 0);
        }
    }
}

#[test]
fn symmod_range_for_negative_modulus() {
    // b < 0: the result lies in (b/2, -b/2]
    assert_eq!(symmod(0, -4), 0);
    assert_eq!(symmod(2, -4), 2);
    assert_eq!(symmod(3, -4), -1);
    // the Euclidean form gives a different value here
    assert_eq!(symmod_alt(0, -4), 4);
}

#[test]
fn symmod_half_way_rounds_down() {
    assert_eq!(symmod(2, 4), -2);
    assert_eq!(symmod_alt(2, 4), -2);
    assert_eq!(symmod(5, 10), -5);
}
