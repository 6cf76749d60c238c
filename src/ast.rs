//! The syntax tree of Presburger formulas, a first-order logic over
//! `0, 1, +, <=, =`, e.g. `forall y. exists x. x <= y /\ 0 <= x`.
//!
//! Each type has a mathematical model (its view); equality of two trees is
//! equality of their models, that is, syntactic equality.
use crate::rational::{rational_text, text_of_rational, RatModel, Rational};
use vstd::prelude::*;

verus! {

/// A variable name.
#[derive(Clone, Debug)]
pub struct Var(pub String);

impl View for Var {
    type V = Seq<char>;

    open spec fn view(&self) -> Seq<char> {
        self.0@
    }
}

impl Var {
    pub fn new(name: &str) -> (r: Var)
        ensures
            r@ == name@,
    {
        Var(name.to_owned())
    }

    pub fn copy(&self) -> (r: Var)
        ensures
            r@ == self@,
    {
        Var(self.0.clone())
    }

    pub fn same_as(&self, other: &Var) -> (r: bool)
        ensures
            r == (self@ == other@),
    {
        self.0 == other.0
    }
}

impl PartialEq for Var {
    fn eq(&self, other: &Var) -> (r: bool) {
        self.same_as(other)
    }
}

impl vstd::std_specs::cmp::PartialEqSpecImpl for Var {
    open spec fn obeys_eq_spec() -> bool {
        true
    }

    open spec fn eq_spec(&self, other: &Var) -> bool {
        self@ == other@
    }
}

impl Eq for Var {

}

/// A numerical term.
#[derive(Debug)]
pub enum Term {
    /// a rational literal
    Num(Rational),
    /// a rational multiple of a numerical variable
    ScalarVar(Rational, Var),
    /// t1 + t2
    Add(Box<Term>, Box<Term>),
}

pub enum TermModel {
    Num(RatModel),
    ScalarVar(RatModel, Seq<char>),
    Add(Box<TermModel>, Box<TermModel>),
}

pub open spec fn term_model(t: Term) -> TermModel
    decreases t,
{
    match t {
        Term::Num(x) => TermModel::Num(x@),
        Term::ScalarVar(a, v) => TermModel::ScalarVar(a@, v@),
        Term::Add(a, b) => TermModel::Add(Box::new(term_model(*a)), Box::new(term_model(*b))),
    }
}

impl View for Term {
    type V = TermModel;

    open spec fn view(&self) -> TermModel {
        term_model(*self)
    }
}

impl Term {
    pub fn num(x: Rational) -> (r: Term)
        ensures
            r@ == TermModel::Num(x@),
    {
        Term::Num(x)
    }

    pub fn scalar_var(s: Rational, name: &str) -> (r: Term)
        ensures
            r@ == TermModel::ScalarVar(s@, name@),
    {
        Term::ScalarVar(s, Var::new(name))
    }

    /// The term `t1 + t2`.
    pub fn tadd(t1: Term, t2: Term) -> (r: Term)
        ensures
            r@ == TermModel::Add(Box::new(t1@), Box::new(t2@)),
    {
        Term::Add(Box::new(t1), Box::new(t2))
    }

    pub fn copy(&self) -> (r: Term)
        ensures
            r@ == self@,
        decreases self,
    {
        match self {
            Term::Num(x) => Term::Num(x.copy()),
            Term::ScalarVar(a, v) => Term::ScalarVar(a.copy(), v.copy()),
            Term::Add(a, b) => Term::Add(Box::new(a.copy()), Box::new(b.copy())),
        }
    }

    /// Syntactic equality.
    pub fn same_as(&self, other: &Term) -> (r: bool)
        ensures
            r == (self@ == other@),
        decreases self,
    {
        match (self, other) {
            (Term::Num(x), Term::Num(y)) => x.equals(y),
            (Term::ScalarVar(a, x), Term::ScalarVar(b, y)) => a.equals(b) && x.same_as(y),
            (Term::Add(a, b), Term::Add(c, d)) => a.same_as(c) && b.same_as(d),
            _ => false,
        }
    }
}

impl PartialEq for Term {
    fn eq(&self, other: &Term) -> (r: bool) {
        self.same_as(other)
    }
}

impl vstd::std_specs::cmp::PartialEqSpecImpl for Term {
    open spec fn obeys_eq_spec() -> bool {
        true
    }

    open spec fn eq_spec(&self, other: &Term) -> bool {
        self@ == other@
    }
}

impl Eq for Term {

}

impl Clone for Term {
    fn clone(&self) -> (r: Term) {
        self.copy()
    }
}

/// An atomic predicate.
#[derive(Debug)]
pub enum Atom {
    /// `true` or `false`
    TruthValue(bool),
    /// a logical (propositional) variable
    LogicalVar(Var),
    /// t1 = t2
    Equality(Box<Term>, Box<Term>),
    /// t1 <= t2
    LessEq(Box<Term>, Box<Term>),
}

pub enum AtomModel {
    TruthValue(bool),
    LogicalVar(Seq<char>),
    Equality(TermModel, TermModel),
    LessEq(TermModel, TermModel),
}

impl View for Atom {
    type V = AtomModel;

    open spec fn view(&self) -> AtomModel {
        match self {
            Atom::TruthValue(b) => AtomModel::TruthValue(*b),
            Atom::LogicalVar(v) => AtomModel::LogicalVar(v@),
            Atom::Equality(a, b) => AtomModel::Equality(a@, b@),
            Atom::LessEq(a, b) => AtomModel::LessEq(a@, b@),
        }
    }
}

impl Atom {
    pub fn truth(val: bool) -> (r: Atom)
        ensures
            r@ == AtomModel::TruthValue(val),
    {
        Atom::TruthValue(val)
    }

    pub fn var(name: &str) -> (r: Atom)
        ensures
            r@ == AtomModel::LogicalVar(name@),
    {
        Atom::LogicalVar(Var::new(name))
    }

    pub fn equality(t1: Term, t2: Term) -> (r: Atom)
        ensures
            r@ == AtomModel::Equality(t1@, t2@),
    {
        Atom::Equality(Box::new(t1), Box::new(t2))
    }

    pub fn less_eq(t1: Term, t2: Term) -> (r: Atom)
        ensures
            r@ == AtomModel::LessEq(t1@, t2@),
    {
        Atom::LessEq(Box::new(t1), Box::new(t2))
    }

    pub fn copy(&self) -> (r: Atom)
        ensures
            r@ == self@,
    {
        match self {
            Atom::TruthValue(b) => Atom::TruthValue(*b),
            Atom::LogicalVar(v) => Atom::LogicalVar(v.copy()),
            Atom::Equality(a, b) => Atom::Equality(Box::new(a.copy()), Box::new(b.copy())),
            Atom::LessEq(a, b) => Atom::LessEq(Box::new(a.copy()), Box::new(b.copy())),
        }
    }

    /// Syntactic equality.
    pub fn same_as(&self, other: &Atom) -> (r: bool)
        ensures
            r == (self@ == other@),
    {
        match (self, other) {
            (Atom::TruthValue(a), Atom::TruthValue(b)) => *a == *b,
            (Atom::LogicalVar(v), Atom::LogicalVar(w)) => v.same_as(w),
            (Atom::Equality(a, b), Atom::Equality(c, d)) => a.same_as(c) && b.same_as(d),
            (Atom::LessEq(a, b), Atom::LessEq(c, d)) => a.same_as(c) && b.same_as(d),
            _ => false,
        }
    }
}

impl PartialEq for Atom {
    fn eq(&self, other: &Atom) -> (r: bool) {
        self.same_as(other)
    }
}

impl vstd::std_specs::cmp::PartialEqSpecImpl for Atom {
    open spec fn obeys_eq_spec() -> bool {
        true
    }

    open spec fn eq_spec(&self, other: &Atom) -> bool {
        self@ == other@
    }
}

impl Eq for Atom {

}

impl Clone for Atom {
    fn clone(&self) -> (r: Atom) {
        self.copy()
    }
}

/// A formula of first-order logic over the atoms.
#[derive(Debug)]
pub enum Formula {
    /// Negation
    Not(Box<Formula>),
    /// Conjunction
    And(Box<Formula>, Box<Formula>),
    /// Inclusive disjunction
    Or(Box<Formula>, Box<Formula>),
    /// Implication
    Impl(Box<Formula>, Box<Formula>),
    /// If and only if
    Iff(Box<Formula>, Box<Formula>),
    /// exists v. p(v)
    Exists(Var, Box<Formula>),
    /// forall v. p(v)
    Forall(Var, Box<Formula>),
    /// An atomic predicate
    Atom(Box<Atom>),
}

pub enum FormulaModel {
    Not(Box<FormulaModel>),
    And(Box<FormulaModel>, Box<FormulaModel>),
    Or(Box<FormulaModel>, Box<FormulaModel>),
    Impl(Box<FormulaModel>, Box<FormulaModel>),
    Iff(Box<FormulaModel>, Box<FormulaModel>),
    Exists(Seq<char>, Box<FormulaModel>),
    Forall(Seq<char>, Box<FormulaModel>),
    Atom(AtomModel),
}

pub open spec fn formula_model(f: Formula) -> FormulaModel
    decreases f,
{
    match f {
        Formula::Not(p) => FormulaModel::Not(Box::new(formula_model(*p))),
        Formula::And(p, q) => FormulaModel::And(
            Box::new(formula_model(*p)),
            Box::new(formula_model(*q)),
        ),
        Formula::Or(p, q) => FormulaModel::Or(
            Box::new(formula_model(*p)),
            Box::new(formula_model(*q)),
        ),
        Formula::Impl(p, q) => FormulaModel::Impl(
            Box::new(formula_model(*p)),
            Box::new(formula_model(*q)),
        ),
        Formula::Iff(p, q) => FormulaModel::Iff(
            Box::new(formula_model(*p)),
            Box::new(formula_model(*q)),
        ),
        Formula::Exists(v, p) => FormulaModel::Exists(v@, Box::new(formula_model(*p))),
        Formula::Forall(v, p) => FormulaModel::Forall(v@, Box::new(formula_model(*p))),
        Formula::Atom(a) => FormulaModel::Atom(a@),
    }
}

impl View for Formula {
    type V = FormulaModel;

    open spec fn view(&self) -> FormulaModel {
        formula_model(*self)
    }
}

impl Formula {
    /// The formula `~p`.
    pub fn fnot(p: Formula) -> (r: Formula)
        ensures
            r@ == FormulaModel::Not(Box::new(p@)),
    {
        Formula::Not(Box::new(p))
    }

    pub fn and(p: Formula, q: Formula) -> (r: Formula)
        ensures
            r@ == FormulaModel::And(Box::new(p@), Box::new(q@)),
    {
        Formula::And(Box::new(p), Box::new(q))
    }

    pub fn or(p: Formula, q: Formula) -> (r: Formula)
        ensures
            r@ == FormulaModel::Or(Box::new(p@), Box::new(q@)),
    {
        Formula::Or(Box::new(p), Box::new(q))
    }

    pub fn implies(p: Formula, q: Formula) -> (r: Formula)
        ensures
            r@ == FormulaModel::Impl(Box::new(p@), Box::new(q@)),
    {
        Formula::Impl(Box::new(p), Box::new(q))
    }

    pub fn iff(p: Formula, q: Formula) -> (r: Formula)
        ensures
            r@ == FormulaModel::Iff(Box::new(p@), Box::new(q@)),
    {
        Formula::Iff(Box::new(p), Box::new(q))
    }

    pub fn fexists(v: Var, p: Formula) -> (r: Formula)
        ensures
            r@ == FormulaModel::Exists(v@, Box::new(p@)),
    {
        Formula::Exists(v, Box::new(p))
    }

    pub fn fforall(v: Var, p: Formula) -> (r: Formula)
        ensures
            r@ == FormulaModel::Forall(v@, Box::new(p@)),
    {
        Formula::Forall(v, Box::new(p))
    }

    pub fn atom(a: Atom) -> (r: Formula)
        ensures
            r@ == FormulaModel::Atom(a@),
    {
        Formula::Atom(Box::new(a))
    }

    pub fn copy(&self) -> (r: Formula)
        ensures
            r@ == self@,
        decreases self,
    {
        match self {
            Formula::Not(p) => Formula::Not(Box::new(p.copy())),
            Formula::And(p, q) => Formula::And(Box::new(p.copy()), Box::new(q.copy())),
            Formula::Or(p, q) => Formula::Or(Box::new(p.copy()), Box::new(q.copy())),
            Formula::Impl(p, q) => Formula::Impl(Box::new(p.copy()), Box::new(q.copy())),
            Formula::Iff(p, q) => Formula::Iff(Box::new(p.copy()), Box::new(q.copy())),
            Formula::Exists(v, p) => Formula::Exists(v.copy(), Box::new(p.copy())),
            Formula::Forall(v, p) => Formula::Forall(v.copy(), Box::new(p.copy())),
            Formula::Atom(a) => Formula::Atom(Box::new(a.copy())),
        }
    }

    /// Syntactic equality.
    pub fn same_as(&self, other: &Formula) -> (r: bool)
        ensures
            r == (self@ == other@),
        decreases self,
    {
        match (self, other) {
            (Formula::Not(p1), Formula::Not(p2)) => p1.same_as(p2),
            (Formula::And(p1, q1), Formula::And(p2, q2)) => p1.same_as(p2) && q1.same_as(q2),
            (Formula::Or(p1, q1), Formula::Or(p2, q2)) => p1.same_as(p2) && q1.same_as(q2),
            (Formula::Impl(p1, q1), Formula::Impl(p2, q2)) => p1.same_as(p2) && q1.same_as(q2),
            (Formula::Iff(p1, q1), Formula::Iff(p2, q2)) => p1.same_as(p2) && q1.same_as(q2),
            (Formula::Exists(v1, p1), Formula::Exists(v2, p2)) => v1.same_as(v2) && p1.same_as(
                p2,
            ),
            (Formula::Forall(v1, p1), Formula::Forall(v2, p2)) => v1.same_as(v2) && p1.same_as(
                p2,
            ),
            (Formula::Atom(a1), Formula::Atom(a2)) => a1.same_as(a2),
            _ => false,
        }
    }
}

impl PartialEq for Formula {
    fn eq(&self, other: &Formula) -> (r: bool) {
        self.same_as(other)
    }
}

impl vstd::std_specs::cmp::PartialEqSpecImpl for Formula {
    open spec fn obeys_eq_spec() -> bool {
        true
    }

    open spec fn eq_spec(&self, other: &Formula) -> bool {
        self@ == other@
    }
}

impl Eq for Formula {

}

impl Clone for Formula {
    fn clone(&self) -> (r: Formula) {
        self.copy()
    }
}

/// How a term is written: `c` for a literal, `c x` for a multiple of a
/// variable, `(t1 + t2)` for a sum.
pub open spec fn term_text(t: TermModel) -> Seq<char>
    decreases t,
{
    match t {
        TermModel::Num(c) => rational_text(c),
        TermModel::ScalarVar(c, v) => rational_text(c) + seq![' '] + v,
        TermModel::Add(a, b) => seq!['('] + term_text(*a) + seq![' ', '+', ' '] + term_text(*b)
            + seq![')'],
    }
}

/// How an atom is written: `true`, `false`, the variable, `t1 == t2` or
/// `t1 <= t2`.
pub open spec fn atom_text(a: AtomModel) -> Seq<char> {
    match a {
        AtomModel::TruthValue(b) => if b {
            seq!['t', 'r', 'u', 'e']
        } else {
            seq!['f', 'a', 'l', 's', 'e']
        },
        AtomModel::LogicalVar(v) => v,
        AtomModel::Equality(x, y) => term_text(x) + seq![' ', '=', '=', ' '] + term_text(y),
        AtomModel::LessEq(x, y) => term_text(x) + seq![' ', '<', '=', ' '] + term_text(y),
    }
}

pub open spec fn binary_text(p: Seq<char>, op: Seq<char>, q: Seq<char>) -> Seq<char> {
    seq!['('] + p + seq![' '] + op + seq![' '] + q + seq![')']
}

/// How a formula is written, fully parenthesised: `~p`, `(p /\ q)`,
/// `(p \/ q)`, `(p ==> q)`, `(p <==> q)`, `(∃v. p)`, `(∀v. p)`, `(a)`.
pub open spec fn formula_text(f: FormulaModel) -> Seq<char>
    decreases f,
{
    match f {
        FormulaModel::Not(p) => seq!['~'] + formula_text(*p),
        FormulaModel::And(p, q) => binary_text(formula_text(*p), seq!['/', '\\'], formula_text(*q)),
        FormulaModel::Or(p, q) => binary_text(formula_text(*p), seq!['\\', '/'], formula_text(*q)),
        FormulaModel::Impl(p, q) => binary_text(
            formula_text(*p),
            seq!['=', '=', '>'],
            formula_text(*q),
        ),
        FormulaModel::Iff(p, q) => binary_text(
            formula_text(*p),
            seq!['<', '=', '=', '>'],
            formula_text(*q),
        ),
        FormulaModel::Exists(v, p) => seq!['(', '∃'] + v + seq!['.', ' '] + formula_text(*p) + seq![
            ')',
        ],
        FormulaModel::Forall(v, p) => seq!['(', '∀'] + v + seq!['.', ' '] + formula_text(*p) + seq![
            ')',
        ],
        FormulaModel::Atom(a) => seq!['('] + atom_text(a) + seq![')'],
    }
}

impl Term {
    pub fn to_text(&self) -> (r: String)
        ensures
            r@ == term_text(self@),
        decreases self,
    {
        let mut out = String::new();
        match self {
            Term::Num(c) => {
                proof {
                    use_type_invariant(c);
                }
                let ct = text_of_rational(c);
                out.append(ct.as_str());
            },
            Term::ScalarVar(c, v) => {
                proof {
                    use_type_invariant(c);
                    reveal_strlit(" ");
                }
                let ct = text_of_rational(c);
                out.append(ct.as_str());
                out.append(" ");
                out.append(v.0.as_str());
            },
            Term::Add(a, b) => {
                proof {
                    reveal_strlit("(");
                    reveal_strlit(" + ");
                    reveal_strlit(")");
                }
                let at = a.to_text();
                let bt = b.to_text();
                out.append("(");
                out.append(at.as_str());
                out.append(" + ");
                out.append(bt.as_str());
                out.append(")");
            },
        }
        proof {
            assert(out@ =~= term_text(self@));
        }
        out
    }
}

impl Atom {
    pub fn to_text(&self) -> (r: String)
        ensures
            r@ == atom_text(self@),
    {
        let mut out = String::new();
        proof {
            reveal_strlit("true");
            reveal_strlit("false");
            reveal_strlit(" == ");
            reveal_strlit(" <= ");
        }
        match self {
            Atom::TruthValue(b) => {
                if *b {
                    out.append("true");
                } else {
                    out.append("false");
                }
            },
            Atom::LogicalVar(v) => {
                out.append(v.0.as_str());
            },
            Atom::Equality(x, y) => {
                let xt = x.to_text();
                let yt = y.to_text();
                out.append(xt.as_str());
                out.append(" == ");
                out.append(yt.as_str());
            },
            Atom::LessEq(x, y) => {
                let xt = x.to_text();
                let yt = y.to_text();
                out.append(xt.as_str());
                out.append(" <= ");
                out.append(yt.as_str());
            },
        }
        proof {
            assert(out@ =~= atom_text(self@));
        }
        out
    }
}

/// Appends `(p op q)`.
fn push_binary(out: &mut String, p: &str, op: &str, q: &str)
    ensures
        final(out)@ == old(out)@ + binary_text(p@, op@, q@),
{
    proof {
        reveal_strlit("(");
        reveal_strlit(" ");
        reveal_strlit(")");
    }
    out.append("(");
    out.append(p);
    out.append(" ");
    out.append(op);
    out.append(" ");
    out.append(q);
    out.append(")");
    assert(final(out)@ =~= old(out)@ + binary_text(p@, op@, q@));
}

impl Formula {
    /// The formula written out, fully parenthesised.
    pub fn to_text(&self) -> (r: String)
        ensures
            r@ == formula_text(self@),
        decreases self,
    {
        let mut out = String::new();
        proof {
            reveal_strlit("~");
            reveal_strlit("/\\");
            reveal_strlit("\\/");
            reveal_strlit("==>");
            reveal_strlit("<==>");
            reveal_strlit("(∃");
            reveal_strlit("(∀");
            reveal_strlit(". ");
            reveal_strlit("(");
            reveal_strlit(")");
        }
        match self {
            Formula::Not(p) => {
                let pt = p.to_text();
                out.append("~");
                out.append(pt.as_str());
            },
            Formula::And(p, q) => {
                let pt = p.to_text();
                let qt = q.to_text();
                push_binary(&mut out, pt.as_str(), "/\\", qt.as_str());
            },
            Formula::Or(p, q) => {
                let pt = p.to_text();
                let qt = q.to_text();
                push_binary(&mut out, pt.as_str(), "\\/", qt.as_str());
            },
            Formula::Impl(p, q) => {
                let pt = p.to_text();
                let qt = q.to_text();
                push_binary(&mut out, pt.as_str(), "==>", qt.as_str());
            },
            Formula::Iff(p, q) => {
                let pt = p.to_text();
                let qt = q.to_text();
                push_binary(&mut out, pt.as_str(), "<==>", qt.as_str());
            },
            Formula::Exists(v, p) => {
                let pt = p.to_text();
                out.append("(∃");
                out.append(v.0.as_str());
                out.append(". ");
                out.append(pt.as_str());
                out.append(")");
            },
            Formula::Forall(v, p) => {
                let pt = p.to_text();
                out.append("(∀");
                out.append(v.0.as_str());
                out.append(". ");
                out.append(pt.as_str());
                out.append(")");
            },
            Formula::Atom(a) => {
                let at = a.to_text();
                out.append("(");
                out.append(at.as_str());
                out.append(")");
            },
        }
        proof {
            assert(out@ =~= formula_text(self@));
        }
        out
    }
}

} // verus!
