//! Exact rational numbers of arbitrary size.
//!
//! A `Rational` holds its numerator and denominator as plain base 2^32 digits
//! (least significant first), always in lowest terms with a positive
//! denominator, so that two values are equal exactly when their fields are.
//! The arithmetic itself is done by `num_rational` on `BigInt`.
use num_bigint::{BigInt, Sign};
use num_rational::Ratio;
use vstd::prelude::*;

verus! {

/// The number that little-endian base 2^32 digits stand for.
pub open spec fn digits_value(d: Seq<u32>) -> nat
    decreases d.len(),
{
    if d.len() == 0 {
        0
    } else {
        d[0] as nat + 0x1_0000_0000 * digits_value(d.drop_first())
    }
}

/// No most significant zero digit: each number has exactly one such form.
pub open spec fn digits_trimmed(d: Seq<u32>) -> bool {
    d.len() == 0 || d.last() != 0
}

pub open spec fn divides(k: nat, a: nat) -> bool {
    a % k == 0
}

pub open spec fn coprime(a: nat, b: nat) -> bool {
    forall|k: nat| 1 < k && #[trigger] divides(k, a) ==> !divides(k, b)
}

/// A fraction `n / d`; it denotes a number where `d != 0`.
pub struct Frac {
    pub n: int,
    pub d: int,
}

pub open spec fn frac(n: int, d: int) -> Frac {
    Frac { n, d }
}

/// `a` and `b` denote the same number.
pub open spec fn same(a: Frac, b: Frac) -> bool {
    a.n * b.d == b.n * a.d
}

pub open spec fn f_add(a: Frac, b: Frac) -> Frac {
    Frac { n: a.n * b.d + b.n * a.d, d: a.d * b.d }
}

pub open spec fn f_mul(a: Frac, b: Frac) -> Frac {
    Frac { n: a.n * b.n, d: a.d * b.d }
}

pub open spec fn f_neg(a: Frac) -> Frac {
    Frac { n: -a.n, d: a.d }
}

pub open spec fn f_div(a: Frac, b: Frac) -> Frac {
    Frac { n: a.n * b.d, d: a.d * b.n }
}

/// `same` is transitive across fractions with non-zero denominators.
pub proof fn lemma_same_trans(a: Frac, b: Frac, c: Frac)
    requires
        a.d != 0,
        b.d != 0,
        c.d != 0,
        same(a, b),
        same(b, c),
    ensures
        same(a, c),
{
    assert(a.n * c.d * b.d == c.n * a.d * b.d) by (nonlinear_arith)
        requires
            a.n * b.d == b.n * a.d,
            b.n * c.d == c.n * b.d,
    ;
    assert(a.n * c.d == c.n * a.d) by (nonlinear_arith)
        requires
            a.n * c.d * b.d == c.n * a.d * b.d,
            b.d != 0,
    ;
}

proof fn lemma_cross_add(an: int, ad: int, bn: int, bd: int, cn: int, cd: int)
    requires
        bn * cd == cn * bd,
    ensures
        (an * bd + bn * ad) * (ad * cd) == (an * cd + cn * ad) * (ad * bd),
{
    vstd::arithmetic::mul::lemma_mul_is_distributive_add_other_way(ad * cd, an * bd, bn * ad);
    vstd::arithmetic::mul::lemma_mul_is_distributive_add_other_way(ad * bd, an * cd, cn * ad);
    assert((an * bd) * (ad * cd) == (an * cd) * (ad * bd)) by (nonlinear_arith);
    assert((bn * ad) * (ad * cd) == (bn * cd) * (ad * ad)) by (nonlinear_arith);
    assert((cn * ad) * (ad * bd) == (cn * bd) * (ad * ad)) by (nonlinear_arith);
}

/// Adding equal numbers gives equal sums.
pub proof fn lemma_add_congruent(a: Frac, b: Frac, b2: Frac)
    requires
        same(b, b2),
    ensures
        same(f_add(a, b), f_add(a, b2)),
{
    lemma_cross_add(a.n, a.d, b.n, b.d, b2.n, b2.d);
}

pub proof fn lemma_add_commutes(a: Frac, b: Frac)
    ensures
        same(f_add(a, b), f_add(b, a)),
{
    assert((a.n * b.d + b.n * a.d) * (b.d * a.d) == (b.n * a.d + a.n * b.d) * (a.d * b.d))
        by (nonlinear_arith);
}

proof fn lemma_ring_distrib(an: int, ad: int, bn: int, bd: int, cn: int, cd: int)
    ensures
        ((an * bd + bn * ad) * cn) * ((ad * cd) * (bd * cd)) == ((an * cn) * (bd * cd) + (bn * cn)
            * (ad * cd)) * ((ad * bd) * cd),
{
    let p = an * bd + bn * ad;
    vstd::arithmetic::mul::lemma_mul_is_distributive_add_other_way(cn * cd, an * bd, bn * ad);
    assert((an * cn) * (bd * cd) == (an * bd) * (cn * cd)) by (nonlinear_arith);
    assert((bn * cn) * (ad * cd) == (bn * ad) * (cn * cd)) by (nonlinear_arith);
    assert((p * cn) * ((ad * cd) * (bd * cd)) == (p * (cn * cd)) * ((ad * bd) * cd))
        by (nonlinear_arith);
}

proof fn lemma_cross_add_left(an: int, ad: int, a2n: int, a2d: int, bn: int, bd: int)
    requires
        an * a2d == a2n * ad,
    ensures
        (an * bd + bn * ad) * (a2d * bd) == (a2n * bd + bn * a2d) * (ad * bd),
{
    vstd::arithmetic::mul::lemma_mul_is_distributive_add_other_way(a2d * bd, an * bd, bn * ad);
    vstd::arithmetic::mul::lemma_mul_is_distributive_add_other_way(ad * bd, a2n * bd, bn * a2d);
    assert((an * bd) * (a2d * bd) == (an * a2d) * (bd * bd)) by (nonlinear_arith);
    assert((a2n * bd) * (ad * bd) == (a2n * ad) * (bd * bd)) by (nonlinear_arith);
    assert((bn * ad) * (a2d * bd) == (bn * a2d) * (ad * bd)) by (nonlinear_arith);
}

/// Adding to equal numbers gives equal sums.
pub proof fn lemma_add_congruent_left(a: Frac, a2: Frac, b: Frac)
    requires
        same(a, a2),
    ensures
        same(f_add(a, b), f_add(a2, b)),
{
    lemma_cross_add_left(a.n, a.d, a2.n, a2.d, b.n, b.d);
}

/// Sums and products of fractions with positive denominators have positive
/// denominators.
pub proof fn lemma_positive_dens(a: Frac, b: Frac)
    requires
        a.d > 0,
        b.d > 0,
    ensures
        f_add(a, b).d > 0,
        f_mul(a, b).d > 0,
{
    lemma_positive_product(a.d, b.d);
}

/// Multiplication distributes over addition.
pub proof fn lemma_mul_distributes(a: Frac, b: Frac, c: Frac)
    ensures
        same(f_mul(f_add(a, b), c), f_add(f_mul(a, c), f_mul(b, c))),
{
    lemma_ring_distrib(a.n, a.d, b.n, b.d, c.n, c.d);
}

proof fn lemma_ring_swap(an: int, ad: int, bn: int, bd: int, cn: int, cd: int, en: int, ed: int)
    ensures
        ((an * bd + bn * ad) * (cd * ed) + (cn * ed + en * cd) * (ad * bd)) * ((ad * cd) * (bd
            * ed)) == ((an * cd + cn * ad) * (bd * ed) + (bn * ed + en * bd) * (ad * cd)) * ((ad
            * bd) * (cd * ed)),
{
    assert((ad * bd) * (cd * ed) == (ad * cd) * (bd * ed)) by (nonlinear_arith);
    vstd::arithmetic::mul::lemma_mul_is_distributive_add(bd * ed, an * cd, cn * ad);
    vstd::arithmetic::mul::lemma_mul_is_distributive_add(ad * cd, bn * ed, en * bd);
    vstd::arithmetic::mul::lemma_mul_is_distributive_add(cd * ed, an * bd, bn * ad);
    vstd::arithmetic::mul::lemma_mul_is_distributive_add(ad * bd, cn * ed, en * cd);
    assert((cd * ed) * (an * bd) == (bd * ed) * (an * cd)) by (nonlinear_arith);
    assert((cd * ed) * (bn * ad) == (ad * cd) * (bn * ed)) by (nonlinear_arith);
    assert((ad * bd) * (cn * ed) == (bd * ed) * (cn * ad)) by (nonlinear_arith);
    assert((ad * bd) * (en * cd) == (ad * cd) * (en * bd)) by (nonlinear_arith);
}

/// `(a + b) + (c + e)` and `(a + c) + (b + e)` are the same number.
pub proof fn lemma_add_swap_middle(a: Frac, b: Frac, c: Frac, e: Frac)
    ensures
        same(f_add(f_add(a, b), f_add(c, e)), f_add(f_add(a, c), f_add(b, e))),
{
    lemma_ring_swap(a.n, a.d, b.n, b.d, c.n, c.d, e.n, e.d);
}

/// `(a * b) * c == (a * c) * b`.
pub proof fn lemma_mul_swap_last(a: Frac, b: Frac, c: Frac)
    ensures
        f_mul(f_mul(a, b), c) == f_mul(f_mul(a, c), b),
{
    assert((a.n * b.n) * c.n == (a.n * c.n) * b.n) by (nonlinear_arith);
    assert((a.d * b.d) * c.d == (a.d * c.d) * b.d) by (nonlinear_arith);
}

pub proof fn lemma_positive_product(x: int, y: int)
    requires
        x > 0,
        y > 0,
    ensures
        x * y > 0,
{
    assert(x * y > 0) by (nonlinear_arith)
        requires
            x > 0,
            y > 0,
    ;
}

/// Multiplying equal numbers gives equal products.
pub proof fn lemma_mul_congruent(a: Frac, a2: Frac, b: Frac)
    requires
        same(a, a2),
    ensures
        same(f_mul(a, b), f_mul(a2, b)),
{
    assert((a.n * b.n) * (a2.d * b.d) == (a2.n * b.n) * (a.d * b.d)) by (nonlinear_arith)
        requires
            a.n * a2.d == a2.n * a.d,
    ;
}

pub proof fn lemma_nonzero_product(x: int, y: int)
    requires
        x != 0,
        y != 0,
    ensures
        x * y != 0,
{
    assert(x * y != 0) by (nonlinear_arith)
        requires
            x != 0,
            y != 0,
    ;
}

/// What a `Rational` holds, as mathematical values.
pub struct RatModel {
    pub neg: bool,
    pub num: Seq<u32>,
    pub den: Seq<u32>,
}

impl RatModel {
    pub open spec fn numer(self) -> int {
        if self.neg {
            -(digits_value(self.num) as int)
        } else {
            digits_value(self.num) as int
        }
    }

    pub open spec fn denom(self) -> int {
        digits_value(self.den) as int
    }

    pub open spec fn frac(self) -> Frac {
        Frac { n: self.numer(), d: self.denom() }
    }

    /// Lowest terms, positive denominator, trimmed digits, no negative zero.
    pub open spec fn wf(self) -> bool {
        &&& self.denom() > 0
        &&& digits_trimmed(self.num)
        &&& digits_trimmed(self.den)
        &&& (self.neg ==> self.num.len() > 0)
        &&& coprime(digits_value(self.num), digits_value(self.den))
    }

    pub open spec fn is_int(self, v: int) -> bool {
        self.wf() && self.numer() == v && self.denom() == 1
    }
}

/// An exact rational number.
#[derive(Debug)]
pub struct Rational {
    neg: bool,
    num: Vec<u32>,
    den: Vec<u32>,
}

impl View for Rational {
    type V = RatModel;

    closed spec fn view(&self) -> RatModel {
        RatModel { neg: self.neg, num: self.num@, den: self.den@ }
    }
}

proof fn lemma_trimmed_nonempty_positive(d: Seq<u32>)
    requires
        digits_trimmed(d),
        d.len() > 0,
    ensures
        digits_value(d) > 0,
    decreases d.len(),
{
    if d.len() > 1 {
        assert(d.drop_first().last() == d.last());
        lemma_trimmed_nonempty_positive(d.drop_first());
    }
}

proof fn lemma_value_zero_iff_empty(d: Seq<u32>)
    requires
        digits_trimmed(d),
    ensures
        (digits_value(d) == 0) == (d.len() == 0),
{
    if d.len() > 0 {
        lemma_trimmed_nonempty_positive(d);
    }
}

proof fn lemma_single_digit(x: u32)
    ensures
        digits_value(seq![x]) == x as nat,
        x != 0 ==> digits_trimmed(seq![x]),
{
    assert(seq![x].drop_first() =~= Seq::<u32>::empty());
    assert(digits_value(seq![x]) == x as nat + 0x1_0000_0000 * digits_value(Seq::<u32>::empty()));
}

proof fn lemma_two_digits(lo: u32, hi: u32)
    ensures
        digits_value(seq![lo, hi]) == lo as nat + 0x1_0000_0000 * (hi as nat),
{
    assert(seq![lo, hi].drop_first() =~= seq![hi]);
    lemma_single_digit(hi);
}

proof fn lemma_value_one(d: Seq<u32>)
    requires
        digits_trimmed(d),
        digits_value(d) == 1,
    ensures
        d == seq![1u32],
{
    lemma_value_zero_iff_empty(d);
    if d.len() > 1 {
        assert(d.drop_first().last() == d.last());
        lemma_trimmed_nonempty_positive(d.drop_first());
    } else {
        assert(d.drop_first() =~= Seq::<u32>::empty());
        assert(d =~= seq![1u32]);
    }
}

proof fn lemma_coprime_with_one(a: nat)
    ensures
        coprime(a, 1),
{
    assert forall|k: nat| 1 < k && #[trigger] divides(k, a) implies !divides(k, 1) by {
        assert(1nat % k == 1) by (nonlinear_arith)
            requires
                1 < k,
        ;
    }
}

fn digits_equal(a: &Vec<u32>, b: &Vec<u32>) -> (r: bool)
    ensures
        r == (a@ == b@),
{
    if a.len() != b.len() {
        return false;
    }
    let mut i: usize = 0;
    while i < a.len()
        invariant
            a.len() == b.len(),
            0 <= i <= a.len(),
            forall|j: int| 0 <= j < i ==> a@[j] == b@[j],
        decreases a.len() - i,
    {
        if a[i] != b[i] {
            return false;
        }
        i = i + 1;
    }
    assert(a@ =~= b@);
    true
}

fn copy_digits(a: &Vec<u32>) -> (r: Vec<u32>)
    ensures
        r@ == a@,
{
    let mut r: Vec<u32> = Vec::new();
    let mut i: usize = 0;
    while i < a.len()
        invariant
            0 <= i <= a.len(),
            r@ == a@.subrange(0, i as int),
        decreases a.len() - i,
    {
        r.push(a[i]);
        i = i + 1;
        assert(r@ =~= a@.subrange(0, i as int));
    }
    assert(a@.subrange(0, a.len() as int) =~= a@);
    r
}

impl Rational {
    /// Every `Rational` is in lowest terms.
    #[verifier::type_invariant]
    pub open spec fn inv(&self) -> bool {
        self@.wf()
    }

    /// The number zero.
    pub fn zero() -> (r: Rational)
        ensures
            r@.is_int(0),
    {
        let num: Vec<u32> = Vec::new();
        let den: Vec<u32> = vec![1u32];
        proof {
            lemma_single_digit(1);
            lemma_coprime_with_one(0);
            assert(den@ =~= seq![1u32]);
        }
        Rational { neg: false, num, den }
    }

    /// The number one.
    pub fn one() -> (r: Rational)
        ensures
            r@.is_int(1),
    {
        let num: Vec<u32> = vec![1u32];
        let den: Vec<u32> = vec![1u32];
        proof {
            lemma_single_digit(1);
            lemma_coprime_with_one(1);
            assert(den@ =~= seq![1u32]);
            assert(num@ =~= seq![1u32]);
        }
        Rational { neg: false, num, den }
    }

    /// The integer `x`.
    pub fn from_i64(x: i64) -> (r: Rational)
        ensures
            r@.is_int(x as int),
    {
        let neg = x < 0;
        let m: u64 = if x < 0 {
            (-(x as i128)) as u64
        } else {
            x as u64
        };
        let lo: u32 = (m % 0x1_0000_0000) as u32;
        let hi: u32 = (m / 0x1_0000_0000) as u32;
        let mut num: Vec<u32> = Vec::new();
        if hi != 0 {
            num.push(lo);
            num.push(hi);
            proof {
                lemma_two_digits(lo, hi);
                assert(num@ =~= seq![lo, hi]);
            }
        } else if lo != 0 {
            num.push(lo);
            proof {
                lemma_single_digit(lo);
                assert(num@ =~= seq![lo]);
            }
        }
        let den: Vec<u32> = vec![1u32];
        proof {
            lemma_single_digit(1);
            assert(den@ =~= seq![1u32]);
            lemma_coprime_with_one(digits_value(num@));
            if hi == 0 && lo == 0 {
                assert(num@ =~= Seq::<u32>::empty());
            }
            assert(digits_value(num@) == m as nat);
        }
        Rational { neg, num, den }
    }

    /// The fraction `n / d`, in lowest terms.
    pub fn ratio(n: i64, d: i64) -> (r: Rational)
        requires
            d != 0,
        ensures
            r@.wf(),
            same(r@.frac(), frac(n as int, d as int)),
    {
        let x = Rational::from_i64(n);
        let y = Rational::from_i64(d);
        big_div(&x, &y)
    }

    /// A copy of this number.
    pub fn copy(&self) -> (r: Rational)
        ensures
            r@ == self@,
    {
        proof {
            use_type_invariant(self);
        }
        Rational { neg: self.neg, num: copy_digits(&self.num), den: copy_digits(&self.den) }
    }

    pub fn is_zero(&self) -> (r: bool)
        ensures
            r == (self@.numer() == 0),
    {
        proof {
            use_type_invariant(self);
            lemma_value_zero_iff_empty(self.num@);
        }
        self.num.len() == 0
    }

    pub fn is_positive(&self) -> (r: bool)
        ensures
            r == (self@.numer() > 0),
    {
        proof {
            use_type_invariant(self);
            lemma_value_zero_iff_empty(self.num@);
        }
        !self.neg && self.num.len() != 0
    }

    pub fn is_negative(&self) -> (r: bool)
        ensures
            r == (self@.numer() < 0),
    {
        proof {
            use_type_invariant(self);
            lemma_value_zero_iff_empty(self.num@);
        }
        self.neg
    }

    /// Equality of the two numbers; for values in lowest terms it is
    /// equality of their digits.
    pub fn equals(&self, other: &Rational) -> (r: bool)
        ensures
            r == (self@ == other@),
    {
        self.neg == other.neg && digits_equal(&self.num, &other.num) && digits_equal(
            &self.den,
            &other.den,
        )
    }

    /// Whether the number is 1 or -1.
    pub fn is_unit(&self) -> (r: bool)
        ensures
            r == (self@.denom() == 1 && (self@.numer() == 1 || self@.numer() == -1)),
    {
        proof {
            use_type_invariant(self);
            lemma_single_digit(1);
            if self@.denom() == 1 {
                lemma_value_one(self.den@);
            }
            if self@.numer() == 1 || self@.numer() == -1 {
                lemma_value_one(self.num@);
            }
        }
        let r = self.den.len() == 1 && self.den[0] == 1 && self.num.len() == 1 && self.num[0] == 1;
        proof {
            if r {
                assert(self.den@ =~= seq![1u32]);
                assert(self.num@ =~= seq![1u32]);
            }
        }
        r
    }

    /// The number negated.
    pub fn neg(&self) -> (r: Rational)
        ensures
            r@.wf(),
            r@.numer() == -self@.numer(),
            r@.denom() == self@.denom(),
    {
        proof {
            use_type_invariant(self);
            lemma_value_zero_iff_empty(self.num@);
        }
        let neg = if self.num.len() == 0 {
            false
        } else {
            !self.neg
        };
        Rational { neg, num: copy_digits(&self.num), den: copy_digits(&self.den) }
    }
}

impl PartialEq for Rational {
    fn eq(&self, other: &Rational) -> (r: bool) {
        self.equals(other)
    }
}

impl vstd::std_specs::cmp::PartialEqSpecImpl for Rational {
    open spec fn obeys_eq_spec() -> bool {
        true
    }

    open spec fn eq_spec(&self, other: &Rational) -> bool {
        self@ == other@
    }
}

impl Eq for Rational {

}

impl Clone for Rational {
    fn clone(&self) -> (r: Rational) {
        self.copy()
    }
}

/// Relies on num_rational's `Add` on `Ratio<BigInt>`: the exact sum, put in
/// lowest terms with a positive denominator by `Ratio::new`.
#[verifier::external_body]
pub(crate) fn big_add(a: &Rational, b: &Rational) -> (r: Rational)
    requires
        a@.wf(),
        b@.wf(),
    ensures
        r@.wf(),
        same(r@.frac(), f_add(a@.frac(), b@.frac())),
{
    let sa = if a.neg { Sign::Minus } else { Sign::Plus };
    let sb = if b.neg { Sign::Minus } else { Sign::Plus };
    let x = Ratio::new_raw(BigInt::from_slice(sa, &a.num), BigInt::from_slice(Sign::Plus, &a.den));
    let y = Ratio::new_raw(BigInt::from_slice(sb, &b.num), BigInt::from_slice(Sign::Plus, &b.den));
    let (n, d) = (x + y).into_raw();
    let (s, num) = n.to_u32_digits();
    Rational { neg: s == Sign::Minus, num, den: d.to_u32_digits().1 }
}

/// Relies on num_rational's `Mul` on `Ratio<BigInt>`: the exact product, put
/// in lowest terms with a positive denominator by `Ratio::new`.
#[verifier::external_body]
pub(crate) fn big_mul(a: &Rational, b: &Rational) -> (r: Rational)
    requires
        a@.wf(),
        b@.wf(),
    ensures
        r@.wf(),
        same(r@.frac(), f_mul(a@.frac(), b@.frac())),
{
    let sa = if a.neg { Sign::Minus } else { Sign::Plus };
    let sb = if b.neg { Sign::Minus } else { Sign::Plus };
    let x = Ratio::new_raw(BigInt::from_slice(sa, &a.num), BigInt::from_slice(Sign::Plus, &a.den));
    let y = Ratio::new_raw(BigInt::from_slice(sb, &b.num), BigInt::from_slice(Sign::Plus, &b.den));
    let (n, d) = (x * y).into_raw();
    let (s, num) = n.to_u32_digits();
    Rational { neg: s == Sign::Minus, num, den: d.to_u32_digits().1 }
}

/// Relies on num_rational's `Div` on `Ratio<BigInt>`: the exact quotient, put
/// in lowest terms with a positive denominator by `Ratio::new`, which panics
/// on a zero divisor.
#[verifier::external_body]
pub(crate) fn big_div(a: &Rational, b: &Rational) -> (r: Rational)
    requires
        a@.wf(),
        b@.wf(),
        b@.numer() != 0,
    ensures
        r@.wf(),
        same(r@.frac(), f_div(a@.frac(), b@.frac())),
{
    let sa = if a.neg { Sign::Minus } else { Sign::Plus };
    let sb = if b.neg { Sign::Minus } else { Sign::Plus };
    let x = Ratio::new_raw(BigInt::from_slice(sa, &a.num), BigInt::from_slice(Sign::Plus, &a.den));
    let y = Ratio::new_raw(BigInt::from_slice(sb, &b.num), BigInt::from_slice(Sign::Plus, &b.den));
    let (n, d) = (x / y).into_raw();
    let (s, num) = n.to_u32_digits();
    Rational { neg: s == Sign::Minus, num, den: d.to_u32_digits().1 }
}

pub open spec fn digit_char(d: nat) -> char {
    seq!['0', '1', '2', '3', '4', '5', '6', '7', '8', '9'][d as int]
}

/// Decimal digits of `n`, most significant first.
pub open spec fn nat_text(n: nat) -> Seq<char>
    decreases n,
{
    if n < 10 {
        seq![digit_char(n)]
    } else {
        nat_text(n / 10).push(digit_char(n % 10))
    }
}

/// Decimal form of `i`, with a leading `-` when negative.
pub open spec fn int_text(i: int) -> Seq<char> {
    if i < 0 {
        seq!['-'] + nat_text((-i) as nat)
    } else {
        nat_text(i as nat)
    }
}

/// How a number is written: `n` when it is an integer, `n/d` otherwise.
pub open spec fn rational_text(v: RatModel) -> Seq<char> {
    if v.denom() == 1 {
        int_text(v.numer())
    } else {
        int_text(v.numer()) + seq!['/'] + nat_text(v.denom() as nat)
    }
}

/// Relies on `Display` for `Ratio<BigInt>` (through `ToString`): the
/// numerator alone when the denominator is one, else `numer/denom`, each in
/// `BigInt`'s decimal form.
#[verifier::external_body]
pub(crate) fn text_of_rational(a: &Rational) -> (r: String)
    requires
        a@.wf(),
    ensures
        r@ == rational_text(a@),
{
    let s = if a.neg { Sign::Minus } else { Sign::Plus };
    Ratio::new_raw(BigInt::from_slice(s, &a.num), BigInt::from_slice(Sign::Plus, &a.den)).to_string()
}

/// The decimal digit `d`, as text.
fn digit_str(d: usize) -> (r: &'static str)
    requires
        d < 10,
    ensures
        r@ == seq![digit_char(d as nat)],
{
    proof {
        reveal_strlit("0");
        reveal_strlit("1");
        reveal_strlit("2");
        reveal_strlit("3");
        reveal_strlit("4");
        reveal_strlit("5");
        reveal_strlit("6");
        reveal_strlit("7");
        reveal_strlit("8");
        reveal_strlit("9");
    }
    match d {
        0 => "0",
        1 => "1",
        2 => "2",
        3 => "3",
        4 => "4",
        5 => "5",
        6 => "6",
        7 => "7",
        8 => "8",
        _ => "9",
    }
}

/// The decimal digits of `i`.
pub fn text_of_index(i: usize) -> (r: String)
    ensures
        r@ == nat_text(i as nat),
    decreases i,
{
    if i < 10 {
        String::from_str(digit_str(i))
    } else {
        let mut r = text_of_index(i / 10);
        r.append(digit_str(i % 10));
        r
    }
}

} // verus!
