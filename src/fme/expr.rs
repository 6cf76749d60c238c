//! Linear expressions and relations for the Fourier-Motzkin solver, with
//! machine-integer coefficients.
use vstd::prelude::*;

verus! {

/// A linear expression given by its coefficient vector.
#[derive(Debug)]
pub struct LExpr {
    coeff: Vec<i64>,
}

impl View for LExpr {
    type V = Seq<i64>;

    closed spec fn view(&self) -> Seq<i64> {
        self.coeff@
    }
}

impl LExpr {
    pub fn new(coeffs: &[i64]) -> (r: LExpr)
        ensures
            r@ == coeffs@,
    {
        let mut coeff: Vec<i64> = Vec::new();
        let mut i: usize = 0;
        while i < coeffs.len()
            invariant
                0 <= i <= coeffs@.len(),
                coeff@ == coeffs@.subrange(0, i as int),
            decreases coeffs@.len() - i,
        {
            coeff.push(coeffs[i]);
            i = i + 1;
            assert(coeff@ =~= coeffs@.subrange(0, i as int));
        }
        assert(coeffs@.subrange(0, coeffs@.len() as int) =~= coeffs@);
        LExpr { coeff }
    }

    /// Length of the coefficient vector.
    pub fn nvars(&self) -> (r: usize)
        ensures
            r == self@.len(),
    {
        self.coeff.len()
    }

    /// Whether the coefficient at `index` exists and is positive.
    pub fn supported(&self, index: usize) -> (r: bool)
        ensures
            r == (index < self@.len() && self@[index as int] > 0),
    {
        match self.coeff.get(index) {
            Some(x) => *x > 0,
            None => false,
        }
    }
}

/// A relation between two linear expressions.
#[derive(Debug)]
pub enum LRel {
    /// lhs = rhs
    Eq(LExpr, LExpr),
    /// lhs <= rhs
    LessEq(LExpr, LExpr),
}

impl LRel {
    pub fn mk_eq(lhs: LExpr, rhs: LExpr) -> (r: LRel)
        ensures
            r == LRel::Eq(lhs, rhs),
    {
        LRel::Eq(lhs, rhs)
    }

    pub fn mk_lesseq(lhs: LExpr, rhs: LExpr) -> (r: LRel)
        ensures
            r == LRel::LessEq(lhs, rhs),
    {
        LRel::LessEq(lhs, rhs)
    }
}

} // verus!
