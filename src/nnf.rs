//! Reduction of formulas to Negation Normal Form (NNF): no implication or
//! equivalence is left, and negation stands only directly above atoms.
use crate::ast::{Formula, FormulaModel};
use vstd::prelude::*;

verus! {

/// `p` with `p ==> q` replaced by `~p \/ q` and `p <==> q` by
/// `(~p \/ q) /\ (~q \/ p)`, everywhere in the tree.
pub open spec fn strip_impl(f: FormulaModel) -> FormulaModel
    decreases f,
{
    match f {
        FormulaModel::Not(p) => FormulaModel::Not(Box::new(strip_impl(*p))),
        FormulaModel::And(p, q) => FormulaModel::And(
            Box::new(strip_impl(*p)),
            Box::new(strip_impl(*q)),
        ),
        FormulaModel::Or(p, q) => FormulaModel::Or(
            Box::new(strip_impl(*p)),
            Box::new(strip_impl(*q)),
        ),
        FormulaModel::Impl(p, q) => FormulaModel::Or(
            Box::new(FormulaModel::Not(Box::new(strip_impl(*p)))),
            Box::new(strip_impl(*q)),
        ),
        FormulaModel::Iff(p, q) => FormulaModel::And(
            Box::new(
                FormulaModel::Or(
                    Box::new(FormulaModel::Not(Box::new(strip_impl(*p)))),
                    Box::new(strip_impl(*q)),
                ),
            ),
            Box::new(
                FormulaModel::Or(
                    Box::new(FormulaModel::Not(Box::new(strip_impl(*q)))),
                    Box::new(strip_impl(*p)),
                ),
            ),
        ),
        FormulaModel::Exists(v, p) => FormulaModel::Exists(v, Box::new(strip_impl(*p))),
        FormulaModel::Forall(v, p) => FormulaModel::Forall(v, Box::new(strip_impl(*p))),
        FormulaModel::Atom(a) => FormulaModel::Atom(a),
    }
}

/// No `Impl` or `Iff` node anywhere in `f`.
pub open spec fn impl_free(f: FormulaModel) -> bool
    decreases f,
{
    match f {
        FormulaModel::Not(p) => impl_free(*p),
        FormulaModel::And(p, q) => impl_free(*p) && impl_free(*q),
        FormulaModel::Or(p, q) => impl_free(*p) && impl_free(*q),
        FormulaModel::Impl(_, _) => false,
        FormulaModel::Iff(_, _) => false,
        FormulaModel::Exists(_, p) => impl_free(*p),
        FormulaModel::Forall(_, p) => impl_free(*p),
        FormulaModel::Atom(_) => true,
    }
}

/// `f` is in NNF: no `Impl` or `Iff`, and every `Not` holds an atom.
pub open spec fn is_nnf(f: FormulaModel) -> bool
    decreases f,
{
    match f {
        FormulaModel::Not(p) => (*p) is Atom,
        FormulaModel::And(p, q) => is_nnf(*p) && is_nnf(*q),
        FormulaModel::Or(p, q) => is_nnf(*p) && is_nnf(*q),
        FormulaModel::Impl(_, _) => false,
        FormulaModel::Iff(_, _) => false,
        FormulaModel::Exists(_, p) => is_nnf(*p),
        FormulaModel::Forall(_, p) => is_nnf(*p),
        FormulaModel::Atom(_) => true,
    }
}

/// The NNF of an implication-free `f`.
pub open spec fn nnf_pos(f: FormulaModel) -> FormulaModel
    decreases f,
{
    match f {
        FormulaModel::Not(p) => nnf_neg(*p),
        FormulaModel::And(p, q) => FormulaModel::And(Box::new(nnf_pos(*p)), Box::new(nnf_pos(*q))),
        FormulaModel::Or(p, q) => FormulaModel::Or(Box::new(nnf_pos(*p)), Box::new(nnf_pos(*q))),
        FormulaModel::Exists(v, p) => FormulaModel::Exists(v, Box::new(nnf_pos(*p))),
        FormulaModel::Forall(v, p) => FormulaModel::Forall(v, Box::new(nnf_pos(*p))),
        _ => f,
    }
}

/// The NNF of `~f`, for an implication-free `f`: double negations cancel,
/// De Morgan's laws turn `And` into `Or` and back, and a negated quantifier
/// turns into the dual quantifier over the negated body.
pub open spec fn nnf_neg(f: FormulaModel) -> FormulaModel
    decreases f,
{
    match f {
        FormulaModel::Not(p) => nnf_pos(*p),
        FormulaModel::And(p, q) => FormulaModel::Or(Box::new(nnf_neg(*p)), Box::new(nnf_neg(*q))),
        FormulaModel::Or(p, q) => FormulaModel::And(Box::new(nnf_neg(*p)), Box::new(nnf_neg(*q))),
        FormulaModel::Exists(v, p) => FormulaModel::Forall(v, Box::new(nnf_neg(*p))),
        FormulaModel::Forall(v, p) => FormulaModel::Exists(v, Box::new(nnf_neg(*p))),
        _ => FormulaModel::Not(Box::new(f)),
    }
}

/// What `to_nnf` returns on `f`.
pub open spec fn nnf_of(f: FormulaModel) -> FormulaModel {
    nnf_pos(strip_impl(f))
}

proof fn lemma_strip_impl_free(f: FormulaModel)
    ensures
        impl_free(strip_impl(f)),
    decreases f,
{
    match f {
        FormulaModel::Not(p) => lemma_strip_impl_free(*p),
        FormulaModel::And(p, q) | FormulaModel::Or(p, q) => {
            lemma_strip_impl_free(*p);
            lemma_strip_impl_free(*q);
        },
        FormulaModel::Impl(p, q) => {
            lemma_strip_impl_free(*p);
            lemma_strip_impl_free(*q);
            assert(impl_free(FormulaModel::Not(Box::new(strip_impl(*p)))));
        },
        FormulaModel::Iff(p, q) => {
            lemma_strip_impl_free(*p);
            lemma_strip_impl_free(*q);
            let np = FormulaModel::Not(Box::new(strip_impl(*p)));
            let nq = FormulaModel::Not(Box::new(strip_impl(*q)));
            assert(impl_free(np) && impl_free(nq));
            assert(impl_free(FormulaModel::Or(Box::new(np), Box::new(strip_impl(*q)))));
            assert(impl_free(FormulaModel::Or(Box::new(nq), Box::new(strip_impl(*p)))));
        },
        FormulaModel::Exists(_, p) | FormulaModel::Forall(_, p) => lemma_strip_impl_free(*p),
        FormulaModel::Atom(_) => {},
    }
}

proof fn lemma_nnf_pos_neg_are_nnf(f: FormulaModel)
    requires
        impl_free(f),
    ensures
        is_nnf(nnf_pos(f)),
        is_nnf(nnf_neg(f)),
    decreases f,
{
    match f {
        FormulaModel::Not(p) => lemma_nnf_pos_neg_are_nnf(*p),
        FormulaModel::And(p, q) | FormulaModel::Or(p, q) => {
            lemma_nnf_pos_neg_are_nnf(*p);
            lemma_nnf_pos_neg_are_nnf(*q);
        },
        FormulaModel::Exists(_, p) | FormulaModel::Forall(_, p) => lemma_nnf_pos_neg_are_nnf(*p),
        _ => {},
    }
}

proof fn lemma_nnf_fixed(f: FormulaModel)
    requires
        is_nnf(f),
    ensures
        strip_impl(f) == f,
        nnf_pos(f) == f,
        impl_free(f),
    decreases f,
{
    match f {
        FormulaModel::Not(p) => {
            assert(strip_impl(*p) == *p);
            assert(nnf_neg(*p) == f);
            assert(impl_free(*p));
        },
        FormulaModel::And(p, q) | FormulaModel::Or(p, q) => {
            lemma_nnf_fixed(*p);
            lemma_nnf_fixed(*q);
        },
        FormulaModel::Exists(_, p) | FormulaModel::Forall(_, p) => lemma_nnf_fixed(*p),
        _ => {},
    }
}

/// The result of `to_nnf` is in negation normal form, for every formula.
pub proof fn lemma_to_nnf_is_nnf(f: FormulaModel)
    ensures
        is_nnf(nnf_of(f)),
{
    lemma_strip_impl_free(f);
    lemma_nnf_pos_neg_are_nnf(strip_impl(f));
}

/// `to_nnf` is idempotent: a formula already in NNF comes back unchanged.
pub proof fn lemma_to_nnf_idempotent(f: FormulaModel)
    ensures
        nnf_of(nnf_of(f)) == nnf_of(f),
{
    lemma_to_nnf_is_nnf(f);
    lemma_nnf_fixed(nnf_of(f));
}

/// A double negation disappears: `to_nnf(~~p) == to_nnf(p)`.
pub proof fn lemma_double_negation(p: FormulaModel)
    ensures
        nnf_of(FormulaModel::Not(Box::new(FormulaModel::Not(Box::new(p))))) == nnf_of(p),
{
    let s = strip_impl(p);
    let np = FormulaModel::Not(Box::new(p));
    assert(strip_impl(np) == FormulaModel::Not(Box::new(s)));
    assert(strip_impl(FormulaModel::Not(Box::new(np))) == FormulaModel::Not(
        Box::new(FormulaModel::Not(Box::new(s))),
    ));
    assert(nnf_neg(FormulaModel::Not(Box::new(s))) == nnf_pos(s));
}

/// De Morgan: `to_nnf(~(p /\ q)) == to_nnf(~p \/ ~q)` and
/// `to_nnf(~(p \/ q)) == to_nnf(~p /\ ~q)`.
pub proof fn lemma_de_morgan(p: FormulaModel, q: FormulaModel)
    ensures
        nnf_of(FormulaModel::Not(Box::new(FormulaModel::And(Box::new(p), Box::new(q)))))
            == nnf_of(
            FormulaModel::Or(
                Box::new(FormulaModel::Not(Box::new(p))),
                Box::new(FormulaModel::Not(Box::new(q))),
            ),
        ),
        nnf_of(FormulaModel::Not(Box::new(FormulaModel::Or(Box::new(p), Box::new(q)))))
            == nnf_of(
            FormulaModel::And(
                Box::new(FormulaModel::Not(Box::new(p))),
                Box::new(FormulaModel::Not(Box::new(q))),
            ),
        ),
{
    let sp = strip_impl(p);
    let sq = strip_impl(q);
    let and_pq = FormulaModel::And(Box::new(p), Box::new(q));
    let or_pq = FormulaModel::Or(Box::new(p), Box::new(q));
    assert(strip_impl(and_pq) == FormulaModel::And(Box::new(sp), Box::new(sq)));
    assert(strip_impl(or_pq) == FormulaModel::Or(Box::new(sp), Box::new(sq)));
    assert(strip_impl(FormulaModel::Not(Box::new(p))) == FormulaModel::Not(Box::new(sp)));
    assert(strip_impl(FormulaModel::Not(Box::new(q))) == FormulaModel::Not(Box::new(sq)));
    assert(nnf_pos(FormulaModel::Not(Box::new(sp))) == nnf_neg(sp));
    assert(nnf_pos(FormulaModel::Not(Box::new(sq))) == nnf_neg(sq));
    assert(nnf_neg(FormulaModel::And(Box::new(sp), Box::new(sq))) == FormulaModel::Or(
        Box::new(nnf_neg(sp)),
        Box::new(nnf_neg(sq)),
    ));
    assert(nnf_neg(FormulaModel::Or(Box::new(sp), Box::new(sq))) == FormulaModel::And(
        Box::new(nnf_neg(sp)),
        Box::new(nnf_neg(sq)),
    ));
}

/// Implication is eliminated: `to_nnf(p ==> q) == to_nnf(~p \/ q)`.
pub proof fn lemma_implication_elimination(p: FormulaModel, q: FormulaModel)
    ensures
        nnf_of(FormulaModel::Impl(Box::new(p), Box::new(q))) == nnf_of(
            FormulaModel::Or(Box::new(FormulaModel::Not(Box::new(p))), Box::new(q)),
        ),
{
    let sp = strip_impl(p);
    assert(strip_impl(FormulaModel::Not(Box::new(p))) == FormulaModel::Not(Box::new(sp)));
    assert(nnf_pos(FormulaModel::Not(Box::new(sp))) == nnf_neg(sp));
}

/// Replaces `==>` and `<==>` by equivalent uses of `~`, `/\` and `\/`.
pub fn remove_impl(p: Formula) -> (r: Formula)
    ensures
        r@ == strip_impl(p@),
        impl_free(r@),
    decreases p,
{
    proof {
        lemma_strip_impl_free(p@);
    }
    match p {
        Formula::Not(bp) => Formula::fnot(remove_impl(*bp)),
        Formula::And(bp, bq) => {
            let p = remove_impl(*bp);
            let q = remove_impl(*bq);
            Formula::and(p, q)
        },
        Formula::Or(bp, bq) => {
            let p = remove_impl(*bp);
            let q = remove_impl(*bq);
            Formula::or(p, q)
        },
        Formula::Impl(bp, bq) => {
            let p = remove_impl(*bp);
            let q = remove_impl(*bq);
            Formula::or(Formula::fnot(p), q)
        },
        Formula::Iff(bp, bq) => {
            let p = remove_impl(*bp);
            let q = remove_impl(*bq);
            let p2 = p.copy();
            let q2 = q.copy();
            let left = Formula::or(Formula::fnot(p), q);
            let right = Formula::or(Formula::fnot(q2), p2);
            Formula::and(left, right)
        },
        Formula::Exists(v, bp) => {
            let p = remove_impl(*bp);
            Formula::fexists(v, p)
        },
        Formula::Forall(v, bp) => {
            let p = remove_impl(*bp);
            Formula::fforall(v, p)
        },
        Formula::Atom(a) => Formula::Atom(a),
    }
}

/// NNF of an implication-free formula.
fn nnf_positive(p: Formula) -> (r: Formula)
    requires
        impl_free(p@),
    ensures
        r@ == nnf_pos(p@),
    decreases p,
{
    match p {
        Formula::Not(bp) => nnf_negative(*bp),
        Formula::And(bp, bq) => Formula::and(nnf_positive(*bp), nnf_positive(*bq)),
        Formula::Or(bp, bq) => Formula::or(nnf_positive(*bp), nnf_positive(*bq)),
        Formula::Exists(v, bp) => Formula::fexists(v, nnf_positive(*bp)),
        Formula::Forall(v, bp) => Formula::fforall(v, nnf_positive(*bp)),
        Formula::Atom(a) => Formula::Atom(a),
        Formula::Impl(bp, bq) => Formula::Impl(bp, bq),
        Formula::Iff(bp, bq) => Formula::Iff(bp, bq),
    }
}

/// NNF of the negation of an implication-free formula.
fn nnf_negative(p: Formula) -> (r: Formula)
    requires
        impl_free(p@),
    ensures
        r@ == nnf_neg(p@),
    decreases p,
{
    match p {
        // double negation: ~(~q) -> q
        Formula::Not(bq) => nnf_positive(*bq),
        // De Morgan: ~(q1 /\ q2) -> ~q1 \/ ~q2
        Formula::And(bq1, bq2) => Formula::or(nnf_negative(*bq1), nnf_negative(*bq2)),
        // De Morgan: ~(q1 \/ q2) -> ~q1 /\ ~q2
        Formula::Or(bq1, bq2) => Formula::and(nnf_negative(*bq1), nnf_negative(*bq2)),
        // ~(exists x. q) -> forall x. ~q
        Formula::Exists(v, bq) => Formula::fforall(v, nnf_negative(*bq)),
        // ~(forall x. q) -> exists x. ~q
        Formula::Forall(v, bq) => Formula::fexists(v, nnf_negative(*bq)),
        Formula::Atom(a) => Formula::fnot(Formula::Atom(a)),
        Formula::Impl(bp, bq) => Formula::fnot(Formula::Impl(bp, bq)),
        Formula::Iff(bp, bq) => Formula::fnot(Formula::Iff(bp, bq)),
    }
}

/// Converts a formula to NNF: implications and equivalences are removed,
/// then negations are pushed down to the atoms.
pub fn to_nnf(p: Formula) -> (r: Formula)
    ensures
        r@ == nnf_of(p@),
        is_nnf(r@),
{
    proof {
        lemma_to_nnf_is_nnf(p@);
    }
    nnf_positive(remove_impl(p))
}

/// Whether `p` is in NNF.
pub fn verify_nnf(p: &Formula) -> (r: bool)
    ensures
        r == is_nnf(p@),
    decreases p,
{
    match p {
        // Not can only stand above an atom
        Formula::Not(bp) => match &**bp {
            Formula::Atom(_) => true,
            _ => {
                assert(!(bp@ is Atom));
                false
            },
        },
        Formula::And(bp, bq) => verify_nnf(bp) && verify_nnf(bq),
        Formula::Or(bp, bq) => verify_nnf(bp) && verify_nnf(bq),
        Formula::Impl(_, _) => false,
        Formula::Iff(_, _) => false,
        Formula::Exists(_, bp) => verify_nnf(bp),
        Formula::Forall(_, bp) => verify_nnf(bp),
        Formula::Atom(_) => true,
    }
}

} // verus!
