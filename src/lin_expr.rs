//! Affine linear expressions `b + a_1 x_1 + ... + a_n x_n` with exact rational
//! coefficients, and the equalities `e = 0` built on them.
use crate::rational::{
    big_mul, big_add, f_add, f_div, f_mul, f_neg, frac, lemma_add_commutes, lemma_add_congruent,
    lemma_mul_congruent, lemma_nonzero_product, lemma_same_trans, nat_text, rational_text,
    same, text_of_index, text_of_rational, Frac, RatModel, Rational,
};
use vstd::prelude::*;

verus! {

/// Errors of the linear-expression operations.
#[derive(Debug, Clone, Copy, PartialEq, Eq, Structural)]
pub enum LinExprError {
    /// An empty coefficient sequence.
    CoeffInvalid,
    /// A variable index outside `[1, nvars]`.
    IndexOutOfBounds,
    /// A substitution whose pivot cannot be solved for the variable.
    AssertionError,
}

impl LinExprError {
    /// A message describing the error.
    pub fn to_text(&self) -> (r: String)
        ensures
            r@ == match self {
                LinExprError::CoeffInvalid => "Coefficient sequence is empty"@,
                LinExprError::IndexOutOfBounds => "Coefficient index out of bounds"@,
                LinExprError::AssertionError => "Assertion error"@,
            },
    {
        proof {
            reveal_strlit("Coefficient sequence is empty");
            reveal_strlit("Coefficient index out of bounds");
            reveal_strlit("Assertion error");
        }
        match self {
            LinExprError::CoeffInvalid => "Coefficient sequence is empty".to_owned(),
            LinExprError::IndexOutOfBounds => "Coefficient index out of bounds".to_owned(),
            LinExprError::AssertionError => "Assertion error".to_owned(),
        }
    }
}

/// The coefficients as numbers (constant first), as seen in contracts.
pub open spec fn models(v: Seq<Rational>) -> Seq<RatModel> {
    v.map_values(|r: Rational| r@)
}

/// Every coefficient is in lowest terms.
pub open spec fn all_wf(s: Seq<RatModel>) -> bool {
    forall|i: int| 0 <= i < s.len() ==> (#[trigger] s[i]).wf()
}

/// The number is 1 or -1.
pub open spec fn is_unit(c: RatModel) -> bool {
    c.denom() == 1 && (c.numer() == 1 || c.numer() == -1)
}

/// `a` and `b` are the same expression once the shorter one is padded with
/// zero coefficients.
pub open spec fn padded_eq(a: Seq<RatModel>, b: Seq<RatModel>) -> bool {
    &&& forall|i: int| 0 <= i < a.len() && i < b.len() ==> a[i] == b[i]
    &&& forall|i: int| b.len() <= i < a.len() ==> (#[trigger] a[i]).numer() == 0
    &&& forall|i: int| a.len() <= i < b.len() ==> (#[trigger] b[i]).numer() == 0
}

/// The coefficient that substituting with `o` for the variable whose
/// coefficient in `o` is `a` leaves in place of `sj`, where `si` is that
/// variable's coefficient in the expression substituted into:
/// `sj + (-1 / a) * oj * si`.
pub open spec fn subs_value(sj: RatModel, oj: RatModel, si: RatModel, a: RatModel) -> Frac {
    f_add(sj.frac(), f_mul(f_mul(f_div(frac(-1, 1), a.frac()), oj.frac()), si.frac()))
}

/// `r` is `s` with variable `i` eliminated by the equality `o`.
pub open spec fn is_subs_result(r: Seq<RatModel>, s: Seq<RatModel>, o: Seq<RatModel>, i: int) -> bool {
    &&& r.len() == s.len()
    &&& forall|j: int| 0 <= j < r.len() ==> same(#[trigger] r[j].frac(), subs_value(s[j], o[j], s[i], o[i]))
}

/// How the term with coefficient `c` on `x_i` is written: `c x_i`, with the
/// coefficient in parentheses when it is negative.
pub open spec fn monomial_text(c: RatModel, i: nat) -> Seq<char> {
    if c.numer() > 0 {
        rational_text(c) + seq![' ', 'x', '_'] + nat_text(i)
    } else {
        seq!['('] + rational_text(c) + seq![')', ' ', 'x', '_'] + nat_text(i)
    }
}

/// The written terms among the first `k` coefficients: the constant, then
/// each variable in ascending order, leaving out those that are zero.
pub open spec fn terms_upto(s: Seq<RatModel>, k: int) -> Seq<Seq<char>>
    decreases k,
{
    if k <= 0 {
        Seq::empty()
    } else {
        let prev = terms_upto(s, k - 1);
        if s[k - 1].numer() == 0 {
            prev
        } else if k - 1 == 0 {
            prev.push(rational_text(s[0]))
        } else {
            prev.push(monomial_text(s[k - 1], (k - 1) as nat))
        }
    }
}

/// The parts separated by ` + `.
pub open spec fn joined(parts: Seq<Seq<char>>) -> Seq<char>
    decreases parts.len(),
{
    if parts.len() == 0 {
        Seq::empty()
    } else if parts.len() == 1 {
        parts[0]
    } else {
        joined(parts.drop_last()) + seq![' ', '+', ' '] + parts.last()
    }
}

/// The canonical text of an expression, e.g. `5 + (-10) x_3`.
pub open spec fn expr_text(s: Seq<RatModel>) -> Seq<char> {
    joined(terms_upto(s, s.len() as int))
}

proof fn lemma_joined_push(parts: Seq<Seq<char>>, t: Seq<char>)
    ensures
        joined(parts.push(t)) == if parts.len() == 0 {
            t
        } else {
            joined(parts) + seq![' ', '+', ' '] + t
        },
{
    assert(parts.push(t).drop_last() =~= parts);
    if parts.len() == 0 {
        assert(parts.push(t)[0] == t);
    }
}

/// Affine linear expression `b + sum a_i x_i`, the left-hand side of a
/// relation `... = 0` or `... <= 0`. Index 0 holds the constant `b`,
/// index `i >= 1` the coefficient of `x_i`.
#[derive(Debug)]
pub struct LinExpr {
    coeff: Vec<Rational>,
}

impl View for LinExpr {
    type V = Seq<RatModel>;

    closed spec fn view(&self) -> Seq<RatModel> {
        models(self.coeff@)
    }
}

impl LinExpr {
    /// The constant slot exists.
    pub open spec fn wf(&self) -> bool {
        self@.len() >= 1
    }

    /// Number of variables.
    pub open spec fn num_vars(&self) -> int {
        self@.len() - 1
    }

    /// Builds the expression from its coefficients, constant first; an empty
    /// sequence is refused.
    pub fn new(coeffs: Vec<Rational>) -> (r: Result<LinExpr, LinExprError>)
        ensures
            match r {
                Ok(e) => coeffs@.len() > 0 && e@ == models(coeffs@) && e.wf(),
                Err(err) => coeffs@.len() == 0 && err == LinExprError::CoeffInvalid,
            },
    {
        if coeffs.len() == 0 {
            Err(LinExprError::CoeffInvalid)
        } else {
            Ok(LinExpr { coeff: coeffs })
        }
    }

    /// The zero expression over `nvars` variables.
    pub fn new_zeros(nvars: usize) -> (r: LinExpr)
        requires
            nvars < usize::MAX,
        ensures
            r.wf(),
            r@.len() == nvars + 1,
            forall|i: int| 0 <= i < r@.len() ==> (#[trigger] r@[i]).is_int(0),
    {
        let mut coeff: Vec<Rational> = Vec::new();
        let mut k: usize = 0;
        while k <= nvars
            invariant
                k <= nvars + 1,
                nvars < usize::MAX,
                coeff@.len() == k,
                forall|i: int| 0 <= i < k ==> (#[trigger] coeff@[i])@.is_int(0),
            decreases nvars + 1 - k,
        {
            coeff.push(Rational::zero());
            k = k + 1;
        }
        LinExpr { coeff }
    }

    /// Adds the variable `x_{n+1}` with coefficient `value`; the others keep
    /// their numbers.
    pub fn add_var(&mut self, value: Rational)
        ensures
            final(self)@ == old(self)@.push(value@),
            final(self).wf(),
    {
        self.coeff.push(value);
        assert(self@ =~= old(self)@.push(value@));
    }

    /// Number of variables, those with coefficient 0 included.
    pub fn nvars(&self) -> (r: usize)
        requires
            self.wf(),
        ensures
            r == self.num_vars(),
            r < usize::MAX,
    {
        self.coeff.len() - 1
    }

    /// The coefficient `a_i`, for `1 <= i <= nvars`.
    pub fn coeff(&self, i: usize) -> (r: Result<&Rational, LinExprError>)
        ensures
            match r {
                Ok(c) => 1 <= i <= self.num_vars() && c@ == self@[i as int],
                Err(e) => !(1 <= i <= self.num_vars()) && e == LinExprError::IndexOutOfBounds,
            },
    {
        if 1 <= i && i < self.coeff.len() {
            Ok(&self.coeff[i])
        } else {
            Err(LinExprError::IndexOutOfBounds)
        }
    }

    /// The coefficient at index `i` (0 is the constant), for an index the
    /// caller has checked.
    pub fn coeff_unchecked(&self, i: usize) -> (r: &Rational)
        requires
            i < self@.len(),
        ensures
            r@ == self@[i as int],
    {
        &self.coeff[i]
    }

    /// Sets `a_i`, for `1 <= i <= nvars`.
    pub fn set_coeff(&mut self, i: usize, value: Rational) -> (r: Result<(), LinExprError>)
        ensures
            match r {
                Ok(_) => 1 <= i <= old(self).num_vars() && final(self)@ == old(self)@.update(
                    i as int,
                    value@,
                ),
                Err(e) => !(1 <= i <= old(self).num_vars()) && e == LinExprError::IndexOutOfBounds
                    && final(self)@ == old(self)@,
            },
    {
        if 1 <= i && i < self.coeff.len() {
            self.set_coeff_unchecked(i, value);
            Ok(())
        } else {
            Err(LinExprError::IndexOutOfBounds)
        }
    }

    /// Sets the coefficient at index `i` (0 is the constant), for an index
    /// the caller has checked.
    pub fn set_coeff_unchecked(&mut self, i: usize, value: Rational)
        requires
            i < old(self)@.len(),
        ensures
            final(self)@ == old(self)@.update(i as int, value@),
    {
        self.coeff.set(i, value);
        assert(self@ =~= old(self)@.update(i as int, value@));
    }

    /// The variable coefficients `a_1 ... a_n`.
    pub fn coeffs(&self) -> (r: &[Rational])
        requires
            self.wf(),
        ensures
            models(r@) == self@.drop_first(),
    {
        let (_, rest) = self.coeff.as_slice().split_at(1);
        assert(models(rest@) =~= self@.drop_first());
        rest
    }

    /// The variable coefficients `a_1 ... a_n`, to change in place; the
    /// constant stays as it is.
    pub fn coeffs_mut(&mut self) -> (r: &mut [Rational])
        requires
            old(self).wf(),
        ensures
            models(r@) == old(self)@.drop_first(),
            final(self)@ == seq![old(self)@[0]] + models(final(r)@),
    {
        let (_, rest) = self.coeff.as_mut_slice().split_at_mut(1);
        rest
    }

    /// The constant term `b`.
    pub fn const_(&self) -> (r: &Rational)
        requires
            self.wf(),
        ensures
            r@ == self@[0],
    {
        &self.coeff[0]
    }

    /// Sets the constant term.
    pub fn set_const(&mut self, value: Rational)
        requires
            old(self).wf(),
        ensures
            final(self).wf(),
            final(self)@ == old(self)@.update(0, value@),
    {
        self.set_coeff_unchecked(0, value);
    }

    /// Whether `x_i` is in the support, i.e. `a_i != 0`; false for an index
    /// outside `[1, nvars]`.
    pub fn supported(&self, i: usize) -> (r: bool)
        ensures
            r == (1 <= i <= self.num_vars() && self@[i as int].numer() != 0),
    {
        if 1 <= i && i < self.coeff.len() {
            !self.coeff[i].is_zero()
        } else {
            false
        }
    }

    /// Equality up to zero padding: the expressions may be over different
    /// numbers of variables if the extra coefficients are all zero.
    pub fn padded_equals(&self, other: &LinExpr) -> (r: bool)
        ensures
            r == padded_eq(self@, other@),
    {
        let n = if self.coeff.len() < other.coeff.len() {
            self.coeff.len()
        } else {
            other.coeff.len()
        };
        let mut i: usize = 0;
        while i < n
            invariant
                n <= self@.len(),
                n <= other@.len(),
                n == self@.len() || n == other@.len(),
                i <= n,
                forall|j: int| 0 <= j < i ==> self@[j] == other@[j],
            decreases n - i,
        {
            if !self.coeff[i].equals(&other.coeff[i]) {
                assert(self@[i as int] != other@[i as int]);
                return false;
            }
            i = i + 1;
        }
        let mut k: usize = n;
        while k < self.coeff.len()
            invariant
                n <= k <= self@.len(),
                n <= other@.len(),
                n == self@.len() || n == other@.len(),
                forall|j: int| n <= j < k ==> (#[trigger] self@[j]).numer() == 0,
            decreases self@.len() - k,
        {
            if !self.coeff[k].is_zero() {
                assert(self@[k as int].numer() != 0);
                return false;
            }
            k = k + 1;
        }
        let mut k: usize = n;
        while k < other.coeff.len()
            invariant
                n <= k <= other@.len(),
                n <= self@.len(),
                n == self@.len() || n == other@.len(),
                forall|j: int| other@.len() <= j < self@.len() ==> (#[trigger] self@[j]).numer() == 0,
                forall|j: int| n <= j < k ==> (#[trigger] other@[j]).numer() == 0,
            decreases other@.len() - k,
        {
            if !other.coeff[k].is_zero() {
                assert(other@[k as int].numer() != 0);
                return false;
            }
            k = k + 1;
        }
        true
    }

    /// The expression `self + m * coeff_i(self) * other`, with variable `i`
    /// eliminated when `m` is `-1 / coeff_i(other)`.
    pub(crate) fn eliminate_with(&self, i: usize, other: &LinExpr, m: &Rational) -> (r: LinExpr)
        requires
            self@.len() == other@.len(),
            1 <= i < self@.len(),
        ensures
            r.wf(),
            all_wf(self@),
            all_wf(other@),
            all_wf(r@),
            r@.len() == self@.len(),
            forall|j: int|
                0 <= j < r@.len() ==> same(
                    #[trigger] r@[j].frac(),
                    f_add(self@[j].frac(), f_mul(f_mul(m@.frac(), other@[j].frac()), self@[i as int].frac())),
                ),
    {
        let n = self.coeff.len() - 1;
        let se_coeff = self.coeff_unchecked(i);
        proof {
            use_type_invariant(m);
            use_type_invariant(se_coeff);
        }
        let mut new_lhs = LinExpr::new_zeros(n);
        let mut j: usize = 0;
        while j <= n
            invariant
                n == self@.len() - 1,
                n < usize::MAX,
                self@.len() == other@.len(),
                m@.wf(),
                se_coeff@ == self@[i as int],
                se_coeff@.wf(),
                1 <= i <= n,
                j <= n + 1,
                new_lhs.wf(),
                new_lhs@.len() == n + 1,
                forall|k: int| 0 <= k < j ==> (#[trigger] self@[k]).wf(),
                forall|k: int| 0 <= k < j ==> (#[trigger] other@[k]).wf(),
                forall|k: int| 0 <= k < j ==> (#[trigger] new_lhs@[k]).wf(),
                forall|k: int|
                    0 <= k < j ==> same(
                        #[trigger] new_lhs@[k].frac(),
                        f_add(self@[k].frac(), f_mul(f_mul(m@.frac(), other@[k].frac()), self@[i as int].frac())),
                    ),
            decreases n + 1 - j,
        {
            let sj = self.coeff_unchecked(j);
            let oj = other.coeff_unchecked(j);
            proof {
                use_type_invariant(sj);
                use_type_invariant(oj);
            }
            let t1 = big_mul(m, oj);
            let t2 = big_mul(&t1, se_coeff);
            let c = big_add(sj, &t2);
            proof {
                use_type_invariant(&t1);
                use_type_invariant(&t2);
                use_type_invariant(&c);
                let mo = f_mul(m@.frac(), oj@.frac());
                let target = f_mul(mo, se_coeff@.frac());
                lemma_nonzero_product(m@.denom(), oj@.denom());
                lemma_nonzero_product(mo.d, se_coeff@.denom());
                lemma_nonzero_product(t1@.denom(), se_coeff@.denom());
                lemma_mul_congruent(t1@.frac(), mo, se_coeff@.frac());
                lemma_same_trans(t2@.frac(), f_mul(t1@.frac(), se_coeff@.frac()), target);
                lemma_add_congruent(sj@.frac(), t2@.frac(), target);
                lemma_nonzero_product(sj@.denom(), t2@.denom());
                lemma_nonzero_product(sj@.denom(), target.d);
                lemma_same_trans(c@.frac(), f_add(sj@.frac(), t2@.frac()), f_add(sj@.frac(), target));
            }
            new_lhs.set_coeff_unchecked(j, c);
            j = j + 1;
        }
        new_lhs
    }

    /// `(-coeff_x(other)) * self + coeff_x(self) * other`: where `self` has a
    /// positive coefficient on `x` and `other` a negative one, a combination
    /// with non-negative factors in which `x` cancels.
    pub(crate) fn fm_combine(&self, other: &LinExpr, x: usize) -> (r: LinExpr)
        requires
            self@.len() == other@.len(),
            x < self@.len(),
        ensures
            r.wf(),
            r@.len() == self@.len(),
            forall|j: int|
                0 <= j < r@.len() ==> same(
                    #[trigger] r@[j].frac(),
                    f_add(
                        f_mul(self@[j].frac(), f_neg(other@[x as int].frac())),
                        f_mul(other@[j].frac(), self@[x as int].frac()),
                    ),
                ),
    {
        let n = self.coeff.len() - 1;
        let lx = self.coeff_unchecked(x);
        let ux = other.coeff_unchecked(x);
        proof {
            use_type_invariant(lx);
        }
        let minus_ux = ux.neg();
        let mut new_lhs = LinExpr::new_zeros(n);
        let mut j: usize = 0;
        while j <= n
            invariant
                n == self@.len() - 1,
                n < usize::MAX,
                self@.len() == other@.len(),
                lx@ == self@[x as int],
                ux@ == other@[x as int],
                minus_ux@.frac() == f_neg(ux@.frac()),
                minus_ux@.wf(),
                lx@.wf(),
                x < self@.len(),
                j <= n + 1,
                new_lhs.wf(),
                new_lhs@.len() == n + 1,
                forall|k: int|
                    0 <= k < j ==> same(
                        #[trigger] new_lhs@[k].frac(),
                        f_add(
                            f_mul(self@[k].frac(), f_neg(other@[x as int].frac())),
                            f_mul(other@[k].frac(), self@[x as int].frac()),
                        ),
                    ),
            decreases n + 1 - j,
        {
            let lj = self.coeff_unchecked(j);
            let uj = other.coeff_unchecked(j);
            proof {
                use_type_invariant(lj);
                use_type_invariant(uj);
            }
            let a = big_mul(lj, &minus_ux);
            let b = big_mul(uj, lx);
            let c = big_add(&a, &b);
            proof {
                use_type_invariant(&a);
                use_type_invariant(&b);
                use_type_invariant(&c);
                let ta = f_mul(lj@.frac(), f_neg(ux@.frac()));
                let tb = f_mul(uj@.frac(), lx@.frac());
                lemma_nonzero_product(lj@.denom(), ux@.denom());
                lemma_nonzero_product(uj@.denom(), lx@.denom());
                lemma_add_congruent(a@.frac(), b@.frac(), tb);
                lemma_add_commutes(a@.frac(), tb);
                lemma_add_commutes(ta, tb);
                lemma_add_congruent(tb, a@.frac(), ta);
                lemma_nonzero_product(a@.denom(), b@.denom());
                lemma_nonzero_product(a@.denom(), tb.d);
                lemma_nonzero_product(tb.d, ta.d);
                lemma_same_trans(c@.frac(), f_add(a@.frac(), b@.frac()), f_add(a@.frac(), tb));
                lemma_same_trans(c@.frac(), f_add(a@.frac(), tb), f_add(tb, a@.frac()));
                lemma_same_trans(c@.frac(), f_add(tb, a@.frac()), f_add(tb, ta));
                lemma_same_trans(c@.frac(), f_add(tb, ta), f_add(ta, tb));
            }
            new_lhs.set_coeff_unchecked(j, c);
            j = j + 1;
        }
        new_lhs
    }

    /// The expression written with its non-zero terms only, constant first
    /// and variables in ascending order, e.g. `1 x_1 + 2 x_3` or
    /// `5 + (-10) x_3`; the zero expression is written as the empty string.
    pub fn to_text(&self) -> (r: String)
        ensures
            r@ == expr_text(self@),
    {
        let mut out = String::new();
        let mut count: usize = 0;
        let mut j: usize = 0;
        while j < self.coeff.len()
            invariant
                j <= self@.len(),
                out@ == joined(terms_upto(self@, j as int)),
                count == terms_upto(self@, j as int).len(),
                count <= j,
            decreases self@.len() - j,
        {
            let c = &self.coeff[j];
            proof {
                use_type_invariant(c);
                reveal_strlit(" + ");
                reveal_strlit(" x_");
                reveal_strlit("(");
                reveal_strlit(") x_");
            }
            let ghost prev = terms_upto(self@, j as int);
            if !c.is_zero() {
                let ghost before = out@;
                if count > 0 {
                    out.append(" + ");
                }
                let ct = text_of_rational(c);
                if j == 0 {
                    out.append(ct.as_str());
                } else if c.is_positive() {
                    out.append(ct.as_str());
                    out.append(" x_");
                    let it = text_of_index(j);
                    out.append(it.as_str());
                } else {
                    out.append("(");
                    out.append(ct.as_str());
                    out.append(") x_");
                    let it = text_of_index(j);
                    out.append(it.as_str());
                }
                proof {
                    let t = terms_upto(self@, j + 1).last();
                    lemma_joined_push(prev, t);
                    if count > 0 {
                        assert(out@ =~= before + seq![' ', '+', ' '] + t);
                    } else {
                        assert(out@ =~= t);
                    }
                }
                count = count + 1;
            }
            j = j + 1;
        }
        out
    }

    /// `self` with variable `i` eliminated by the equality `other = 0`,
    /// given `m == -1 / coeff_i(other)`.
    pub(crate) fn subs_with_pivot(&self, i: usize, other: &LinExpr, m: &Rational) -> (r: LinExpr)
        requires
            self@.len() == other@.len(),
            1 <= i < self@.len(),
            other@[i as int].numer() != 0,
            same(m@.frac(), f_div(frac(-1, 1), other@[i as int].frac())),
        ensures
            r.wf(),
            is_subs_result(r@, self@, other@, i as int),
    {
        proof {
            use_type_invariant(m);
        }
        let r = self.eliminate_with(i, other, m);
        proof {
            let s = self@;
            let o = other@;
            let a = o[i as int].frac();
            let m2 = f_div(frac(-1, 1), a);
            assert forall|j: int| 0 <= j < r@.len() implies same(
                #[trigger] r@[j].frac(),
                subs_value(s[j], o[j], s[i as int], o[i as int]),
            ) by {
                let sj = s[j].frac();
                let oj = o[j].frac();
                let si = s[i as int].frac();
                assert(s[j].wf() && o[j].wf() && r@[j].wf() && s[i as int].wf());
                lemma_nonzero_product(a.d, -1);
                lemma_nonzero_product(1, a.n);
                lemma_mul_congruent(m@.frac(), m2, oj);
                lemma_nonzero_product(m@.denom(), oj.d);
                lemma_nonzero_product(m2.d, oj.d);
                lemma_mul_congruent(f_mul(m@.frac(), oj), f_mul(m2, oj), si);
                lemma_add_congruent(sj, f_mul(f_mul(m@.frac(), oj), si), f_mul(f_mul(m2, oj), si));
                lemma_nonzero_product(m@.denom() * oj.d, si.d);
                lemma_nonzero_product(m2.d * oj.d, si.d);
                lemma_nonzero_product(sj.d, m@.denom() * oj.d * si.d);
                lemma_nonzero_product(sj.d, m2.d * oj.d * si.d);
                lemma_same_trans(
                    r@[j].frac(),
                    f_add(sj, f_mul(f_mul(m@.frac(), oj), si)),
                    f_add(sj, f_mul(f_mul(m2, oj), si)),
                );
            }
        }
        r
    }
}

impl PartialEq for LinExpr {
    fn eq(&self, other: &LinExpr) -> (r: bool) {
        self.padded_equals(other)
    }
}

impl Eq for LinExpr {

}

impl vstd::std_specs::cmp::PartialEqSpecImpl for LinExpr {
    open spec fn obeys_eq_spec() -> bool {
        true
    }

    open spec fn eq_spec(&self, other: &LinExpr) -> bool {
        padded_eq(self@, other@)
    }
}

/// The equality `e = 0`.
#[derive(Debug)]
pub struct LinEq(LinExpr);

impl View for LinEq {
    type V = Seq<RatModel>;

    closed spec fn view(&self) -> Seq<RatModel> {
        self.0@
    }
}

impl LinEq {
    /// The constant slot exists.
    pub open spec fn wf(&self) -> bool {
        self@.len() >= 1
    }

    pub open spec fn num_vars(&self) -> int {
        self@.len() - 1
    }

    pub fn new(e: LinExpr) -> (r: LinEq)
        ensures
            r@ == e@,
    {
        LinEq(e)
    }

    /// The equality with these coefficients, constant first; an empty
    /// sequence is refused.
    pub fn from_coeffs(coeffs: Vec<Rational>) -> (r: Result<LinEq, LinExprError>)
        ensures
            match r {
                Ok(e) => coeffs@.len() > 0 && e@ == models(coeffs@) && e.wf(),
                Err(err) => coeffs@.len() == 0 && err == LinExprError::CoeffInvalid,
            },
    {
        match LinExpr::new(coeffs) {
            Ok(e) => Ok(LinEq(e)),
            Err(err) => Err(err),
        }
    }

    pub fn nvars(&self) -> (r: usize)
        requires
            self.wf(),
        ensures
            r == self.num_vars(),
    {
        self.0.nvars()
    }

    pub fn coeffs(&self) -> (r: &[Rational])
        requires
            self.wf(),
        ensures
            models(r@) == self@.drop_first(),
    {
        self.0.coeffs()
    }

    pub fn const_(&self) -> (r: &Rational)
        requires
            self.wf(),
        ensures
            r@ == self@[0],
    {
        self.0.const_()
    }

    pub fn lhs(&self) -> (r: &LinExpr)
        ensures
            r@ == self@,
    {
        &self.0
    }

    /// The equality written as `<expression> = 0`.
    pub fn to_text(&self) -> (r: String)
        ensures
            r@ == expr_text(self@) + seq![' ', '=', ' ', '0'],
    {
        let mut out = self.0.to_text();
        proof {
            reveal_strlit(" = 0");
        }
        out.append(" = 0");
        out
    }

    /// The first variable whose coefficient is 1 or -1, which the equality
    /// can be solved for by a unit substitution; `None` if there is none.
    pub fn is_subs(&self) -> (r: Option<usize>)
        ensures
            match r {
                Some(i) => 1 <= i <= self.num_vars() && is_unit(self@[i as int]) && forall|k: int|
                    1 <= k < i ==> !is_unit(#[trigger] self@[k]),
                None => forall|k: int| 1 <= k <= self.num_vars() ==> !is_unit(#[trigger] self@[k]),
            },
    {
        let n = self.0.coeff.len();
        let mut i: usize = 1;
        while i < n
            invariant
                n == self@.len(),
                1 <= i,
                i <= n || n == 0,
                forall|k: int| 1 <= k < i ==> !is_unit(#[trigger] self@[k]),
            decreases n - i,
        {
            if self.0.coeff[i].is_unit() {
                return Some(i);
            }
            i = i + 1;
        }
        None
    }

    /// Whether the coefficient of `x_i` is 1 or -1; false for an index
    /// outside `[1, nvars]`.
    pub fn is_subs_for(&self, i: usize) -> (r: bool)
        ensures
            r == (1 <= i <= self.num_vars() && is_unit(self@[i as int])),
    {
        match self.0.coeff(i) {
            Ok(c) => c.is_unit(),
            Err(_) => false,
        }
    }

    /// Eliminates `x_i` from `self` with the equality `other`, whose
    /// coefficient of `x_i` must be 1 or -1: the result is
    /// `self + (-1 / a) * coeff_i(self) * other` for that coefficient `a`.
    pub fn subs(self, i: usize, other: &LinEq) -> (r: Result<LinEq, LinExprError>)
        requires
            self.wf(),
            self@.len() == other@.len(),
        ensures
            match r {
                Ok(e) => 1 <= i <= self.num_vars() && is_unit(other@[i as int]) && e.wf()
                    && is_subs_result(e@, self@, other@, i as int),
                Err(err) => if 1 <= i <= self.num_vars() {
                    !is_unit(other@[i as int]) && err == LinExprError::AssertionError
                } else {
                    err == LinExprError::IndexOutOfBounds
                },
            },
    {
        match other.0.coeff(i) {
            Ok(a) => {
                let m = if a.is_unit() && a.is_positive() {
                    // a == 1: subtract other's coefficients
                    Rational::from_i64(-1)
                } else if a.is_unit() {
                    // a == -1: add other's coefficients
                    Rational::one()
                } else {
                    return Err(LinExprError::AssertionError);
                };
                let new_lhs = self.0.subs_with_pivot(i, &other.0, &m);
                Ok(LinEq(new_lhs))
            },
            Err(err) => Err(err),
        }
    }
}

impl PartialEq for LinEq {
    fn eq(&self, other: &LinEq) -> (r: bool) {
        self.0.padded_equals(&other.0)
    }
}

impl vstd::std_specs::cmp::PartialEqSpecImpl for LinEq {
    open spec fn obeys_eq_spec() -> bool {
        true
    }

    open spec fn eq_spec(&self, other: &LinEq) -> bool {
        padded_eq(self@, other@)
    }
}

impl Eq for LinEq {

}

} // verus!
