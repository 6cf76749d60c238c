//! Linear relations `b + sum a_i x_i = 0` and `b + sum a_i x_i <= 0`.
use crate::lin_expr::{expr_text, is_subs_result, models, padded_eq, LinExpr, LinExprError};
use crate::rational::{big_div, f_add, f_mul, f_neg, same, RatModel, Rational};
use vstd::prelude::*;

verus! {

/// The relation of an expression to zero.
#[derive(Debug, Clone, Copy, PartialEq, Eq, Structural)]
pub enum Constraint {
    /// Equality
    Eq,
    /// Less than or equal to
    Le,
}

/// The symbol of a relation.
pub open spec fn constraint_text(c: Constraint) -> Seq<char> {
    match c {
        Constraint::Eq => seq!['='],
        Constraint::Le => seq!['<', '='],
    }
}

impl Constraint {
    /// `=` or `<=`.
    pub fn to_text(&self) -> (r: String)
        ensures
            r@ == constraint_text(*self),
    {
        proof {
            reveal_strlit("=");
            reveal_strlit("<=");
        }
        match self {
            Constraint::Eq => "=".to_owned(),
            Constraint::Le => "<=".to_owned(),
        }
    }
}

/// `lhs rel 0`, where `rel` is `=` or `<=`.
#[derive(Debug)]
pub struct LinRel {
    lhs: LinExpr,
    constraint: Constraint,
}

impl View for LinRel {
    type V = (Seq<RatModel>, Constraint);

    closed spec fn view(&self) -> (Seq<RatModel>, Constraint) {
        (self.lhs@, self.constraint)
    }
}

impl LinRel {
    /// The constant slot exists.
    pub open spec fn wf(&self) -> bool {
        self@.0.len() >= 1
    }

    pub open spec fn num_vars(&self) -> int {
        self@.0.len() - 1
    }

    /// The equality `lhs = 0`.
    pub fn mk_eq(lhs: LinExpr) -> (r: LinRel)
        ensures
            r@ == (lhs@, Constraint::Eq),
    {
        LinRel { lhs, constraint: Constraint::Eq }
    }

    /// The inequality `lhs <= 0`.
    pub fn mk_le(lhs: LinExpr) -> (r: LinRel)
        ensures
            r@ == (lhs@, Constraint::Le),
    {
        LinRel { lhs, constraint: Constraint::Le }
    }

    pub fn nvars(&self) -> (r: usize)
        requires
            self.wf(),
        ensures
            r == self.num_vars(),
            r < usize::MAX,
    {
        self.lhs.nvars()
    }

    pub fn coeffs(&self) -> (r: &[Rational])
        requires
            self.wf(),
        ensures
            models(r@) == self@.0.drop_first(),
    {
        self.lhs.coeffs()
    }

    pub fn const_(&self) -> (r: &Rational)
        requires
            self.wf(),
        ensures
            r@ == self@.0[0],
    {
        self.lhs.const_()
    }

    pub fn lhs(&self) -> (r: &LinExpr)
        ensures
            r@ == self@.0,
    {
        &self.lhs
    }

    /// The relation written as `<expression> <symbol> 0`.
    pub fn to_text(&self) -> (r: String)
        ensures
            r@ == expr_text(self@.0) + seq![' '] + constraint_text(self@.1) + seq![' ', '0'],
    {
        let mut out = self.lhs.to_text();
        let sym = self.constraint.to_text();
        proof {
            reveal_strlit(" ");
            reveal_strlit(" 0");
        }
        out.append(" ");
        out.append(sym.as_str());
        out.append(" 0");
        out
    }

    pub fn constraint(&self) -> (r: Constraint)
        ensures
            r == self@.1,
    {
        self.constraint
    }

    pub fn is_equality(&self) -> (r: bool)
        ensures
            r == (self@.1 == Constraint::Eq),
    {
        match self.constraint {
            Constraint::Eq => true,
            Constraint::Le => false,
        }
    }

    /// For an equality, the first variable with a non-zero coefficient,
    /// which the equality can be solved for; `None` for an inequality or an
    /// equality without variables.
    pub fn is_subs(&self) -> (r: Option<usize>)
        requires
            self.wf(),
        ensures
            match r {
                Some(i) => self@.1 == Constraint::Eq && 1 <= i <= self.num_vars()
                    && self@.0[i as int].numer() != 0 && forall|k: int|
                    1 <= k < i ==> (#[trigger] self@.0[k]).numer() == 0,
                None => self@.1 != Constraint::Eq || forall|k: int|
                    1 <= k <= self.num_vars() ==> (#[trigger] self@.0[k]).numer() == 0,
            },
    {
        if !self.is_equality() {
            return None;
        }
        let n = self.lhs.nvars();
        let mut i: usize = 1;
        while i <= n
            invariant
                n == self.num_vars(),
                n < usize::MAX,
                self@.0 == self.lhs@,
                self@.1 == Constraint::Eq,
                1 <= i <= n + 1,
                forall|k: int| 1 <= k < i ==> (#[trigger] self@.0[k]).numer() == 0,
            decreases self@.0.len() - i,
        {
            if self.lhs.supported(i) {
                return Some(i);
            }
            i = i + 1;
        }
        None
    }

    /// Whether this is an equality with a non-zero coefficient on `x_i`;
    /// false for an index outside `[1, nvars]`.
    pub fn is_subs_for(&self, i: usize) -> (r: bool)
        ensures
            r == (self@.1 == Constraint::Eq && 1 <= i <= self.num_vars()
                && self@.0[i as int].numer() != 0),
    {
        if !self.is_equality() {
            return false;
        }
        self.lhs.supported(i)
    }

    /// Eliminates `x_i` from `self` with the equality `other`, whose
    /// coefficient `a` of `x_i` must be non-zero: the result is
    /// `self + (-1 / a) * coeff_i(self) * other`, with the relation of `self`.
    pub fn subs(self, i: usize, other: &LinRel) -> (r: Result<LinRel, LinExprError>)
        requires
            self.wf(),
            self@.0.len() == other@.0.len(),
        ensures
            match r {
                Ok(e) => {
                    &&& other@.1 == Constraint::Eq
                    &&& 1 <= i <= self.num_vars()
                    &&& other@.0[i as int].numer() != 0
                    &&& e.wf()
                    &&& e@.1 == self@.1
                    &&& is_subs_result(e@.0, self@.0, other@.0, i as int)
                },
                Err(err) => if other@.1 != Constraint::Eq {
                    err == LinExprError::AssertionError
                } else if !(1 <= i <= self.num_vars()) {
                    err == LinExprError::IndexOutOfBounds
                } else {
                    other@.0[i as int].numer() == 0 && err == LinExprError::AssertionError
                },
            },
    {
        if !other.is_equality() {
            // only equalities can be substituted
            return Err(LinExprError::AssertionError);
        }
        let a = match other.lhs.coeff(i) {
            Ok(a) => a,
            Err(err) => return Err(err),
        };
        if a.is_zero() {
            return Err(LinExprError::AssertionError);
        }
        proof {
            use_type_invariant(a);
        }
        let minus_one = Rational::from_i64(-1);
        let m = big_div(&minus_one, a);
        let new_lhs = self.lhs.subs_with_pivot(i, &other.lhs, &m);
        Ok(LinRel { lhs: new_lhs, constraint: self.constraint })
    }
}

/// `c` is the inequality `(-u_x) * l + l_x * u <= 0` that `l <= 0` and
/// `u <= 0` imply when `l_x > 0` and `u_x < 0`; its coefficient on `x` is 0.
pub open spec fn is_fm_combination(
    c: (Seq<RatModel>, Constraint),
    l: (Seq<RatModel>, Constraint),
    u: (Seq<RatModel>, Constraint),
    x: int,
) -> bool {
    &&& c.1 == Constraint::Le
    &&& c.0.len() == l.0.len()
    &&& forall|j: int|
        0 <= j < c.0.len() ==> same(
            #[trigger] c.0[j].frac(),
            f_add(f_mul(l.0[j].frac(), f_neg(u.0[x].frac())), f_mul(u.0[j].frac(), l.0[x].frac())),
        )
}

impl LinRel {
    /// The inequality that `self` (positive coefficient on `x`) and `other`
    /// (negative coefficient) imply, without `x`.
    pub(crate) fn fm_combine(&self, other: &LinRel, x: usize) -> (r: LinRel)
        requires
            self@.0.len() == other@.0.len(),
            x < self@.0.len(),
        ensures
            r.wf(),
            is_fm_combination(r@, self@, other@, x as int),
    {
        LinRel { lhs: self.lhs.fm_combine(&other.lhs, x), constraint: Constraint::Le }
    }
}

impl PartialEq for LinRel {
    fn eq(&self, other: &LinRel) -> (r: bool) {
        self.lhs.padded_equals(&other.lhs) && self.constraint == other.constraint
    }
}

impl vstd::std_specs::cmp::PartialEqSpecImpl for LinRel {
    open spec fn obeys_eq_spec() -> bool {
        true
    }

    open spec fn eq_spec(&self, other: &LinRel) -> bool {
        padded_eq(self@.0, other@.0) && self@.1 == other@.1
    }
}

impl Eq for LinRel {

}

} // verus!
