//! Elimination of one variable from a conjunction of linear relations:
//! by substitution with an equality that mentions it, or by Fourier-Motzkin
//! elimination over the inequalities.
use crate::lin_expr::{all_wf, is_subs_result, subs_value, LinExprError};
use crate::lin_rel::{is_fm_combination, Constraint, LinRel};
use crate::rational::{
    f_add, f_div, f_mul, frac, lemma_add_commutes, lemma_add_congruent, lemma_add_congruent_left,
    lemma_add_swap_middle, lemma_mul_congruent, lemma_mul_distributes, lemma_mul_swap_last,
    lemma_nonzero_product, lemma_positive_dens, lemma_same_trans, same, Frac, RatModel,
};
use vstd::prelude::*;

verus! {

/// All relations are over the same variables, among them `x`.
pub open spec fn uniform_over(rels: Seq<LinRel>, x: int) -> bool {
    &&& forall|k: int| 0 <= k < rels.len() ==> 1 <= x < (#[trigger] rels[k])@.0.len()
    &&& forall|k: int, l: int|
        0 <= k < rels.len() && 0 <= l < rels.len() ==> (#[trigger] rels[k])@.0.len() == (
        #[trigger] rels[l])@.0.len()
}

/// `r` is an equality that can be solved for `x`.
pub open spec fn is_pivot(r: LinRel, x: int) -> bool {
    r@.1 == Constraint::Eq && r@.0[x].numer() != 0
}

pub open spec fn zero_on(x: int) -> spec_fn(LinRel) -> bool {
    |r: LinRel| r@.0[x].numer() == 0
}

pub open spec fn pos_on(x: int) -> spec_fn(LinRel) -> bool {
    |r: LinRel| r@.0[x].numer() > 0
}

pub open spec fn neg_on(x: int) -> spec_fn(LinRel) -> bool {
    |r: LinRel| r@.0[x].numer() < 0
}

proof fn lemma_filter_step(s: Seq<LinRel>, k: int, p: spec_fn(LinRel) -> bool)
    requires
        0 <= k < s.len(),
    ensures
        s.subrange(0, k + 1).filter(p) == if p(s[k]) {
            s.subrange(0, k).filter(p).push(s[k])
        } else {
            s.subrange(0, k).filter(p)
        },
{
    reveal(Seq::filter);
    let t = s.subrange(0, k + 1);
    assert(t.drop_last() =~= s.subrange(0, k));
    assert(t.last() == s[k]);
}

/// Eliminates `x` from the conjunction `rels` with the first equality that
/// can be solved for it: every other relation is substituted into, in order,
/// and the equality itself is dropped. Fails with `AssertionError` if no
/// equality mentions `x`.
pub fn eliminate_equality(rels: Vec<LinRel>, x: usize) -> (r: Result<Vec<LinRel>, LinExprError>)
    requires
        uniform_over(rels@, x as int),
    ensures
        match r {
            Ok(out) => exists|k: int|
                {
                    &&& 0 <= k < rels@.len()
                    &&& is_pivot(rels@[k], x as int)
                    &&& forall|j: int| 0 <= j < k ==> !is_pivot(#[trigger] rels@[j], x as int)
                    &&& out@.len() == rels@.len() - 1
                    &&& forall|j: int|
                        0 <= j < out@.len() ==> {
                            let src = if j < k {
                                rels@[j]
                            } else {
                                rels@[j + 1]
                            };
                            &&& (#[trigger] out@[j])@.1 == src@.1
                            &&& out@[j].wf()
                            &&& is_subs_result(out@[j]@.0, src@.0, rels@[k]@.0, x as int)
                        }
                },
            Err(e) => e == LinExprError::AssertionError && forall|k: int|
                0 <= k < rels@.len() ==> !is_pivot(#[trigger] rels@[k], x as int),
        },
{
    let ghost orig = rels@;
    let mut k: usize = 0;
    while k < rels.len() && !rels[k].is_subs_for(x)
        invariant
            rels@ == orig,
            k <= rels@.len(),
            uniform_over(orig, x as int),
            forall|j: int| 0 <= j < k ==> !is_pivot(#[trigger] orig[j], x as int),
        decreases rels@.len() - k,
    {
        k = k + 1;
    }
    if k == rels.len() {
        return Err(LinExprError::AssertionError);
    }
    assert(is_pivot(orig[k as int], x as int));
    let n = rels.len();
    let mut rest = rels;
    let pivot = rest.remove(k);
    let ghost others = rest@;
    assert(others =~= orig.remove(k as int));
    let mut out: Vec<LinRel> = Vec::new();
    let mut i: usize = 0;
    while rest.len() > 0
        invariant
            rest@ == others.subrange(i as int, others.len() as int),
            i <= others.len(),
            others.len() < n,
            others == orig.remove(k as int),
            pivot == orig[k as int],
            is_pivot(pivot, x as int),
            k < orig.len(),
            uniform_over(orig, x as int),
            out@.len() == i,
            forall|j: int|
                0 <= j < i ==> {
                    &&& (#[trigger] out@[j])@.1 == others[j]@.1
                    &&& out@[j].wf()
                    &&& is_subs_result(out@[j]@.0, others[j]@.0, pivot@.0, x as int)
                },
        decreases rest@.len(),
    {
        let r = rest.remove(0);
        assert(r == others[i as int]);
        let ghost src_idx = if i < k { i as int } else { i + 1 };
        assert(others[i as int] == orig[src_idx]);
        match r.subs(x, &pivot) {
            Ok(s) => out.push(s),
            Err(e) => return Err(e),
        }
        i = i + 1;
        assert(rest@ =~= others.subrange(i as int, others.len() as int));
    }
    proof {
        assert forall|j: int| 0 <= j < out@.len() implies {
            let src = if j < k {
                orig[j]
            } else {
                orig[j + 1]
            };
            &&& (#[trigger] out@[j])@.1 == src@.1
            &&& out@[j].wf()
            &&& is_subs_result(out@[j]@.0, src@.0, orig[k as int]@.0, x as int)
        } by {
            assert(others[j] == if j < k {
                orig[j]
            } else {
                orig[j + 1]
            });
        }
    }
    Ok(out)
}

proof fn lemma_filter_keeps(s: Seq<LinRel>, p: spec_fn(LinRel) -> bool, q: spec_fn(LinRel) -> bool)
    requires
        forall|k: int| 0 <= k < s.len() ==> q(#[trigger] s[k]),
    ensures
        forall|i: int| 0 <= i < s.filter(p).len() ==> q(#[trigger] s.filter(p)[i]),
    decreases s.len(),
{
    reveal(Seq::filter);
    if s.len() > 0 {
        let d = s.drop_last();
        assert forall|k: int| 0 <= k < d.len() implies q(#[trigger] d[k]) by {
            assert(d[k] == s[k]);
        }
        lemma_filter_keeps(d, p, q);
        let g = d.filter(p);
        let f = s.filter(p);
        assert forall|i: int| 0 <= i < f.len() implies q(#[trigger] f[i]) by {
            if i < g.len() {
                assert(f[i] == g[i]);
            } else {
                assert(f[i] == s.last());
            }
        }
    }
}

proof fn lemma_grid_index(a2: int, a: int, b: int, n: int)
    requires
        0 <= a2 < a,
        0 <= b < n,
    ensures
        a2 * n + b < a * n,
{
    assert(a2 * n + b < a * n) by (nonlinear_arith)
        requires
            0 <= a2 < a,
            0 <= b < n,
    ;
}

/// `out` is the Fourier-Motzkin elimination of `x` from `rels`: first the
/// relations without `x`, then the combination of each relation with a
/// positive coefficient on `x` with each one with a negative coefficient.
pub open spec fn is_fm_result(out: Seq<LinRel>, rels: Seq<LinRel>, x: int) -> bool {
    let pass = rels.filter(zero_on(x));
    let pos = rels.filter(pos_on(x));
    let neg = rels.filter(neg_on(x));
    &&& out.len() == pass.len() + pos.len() * neg.len()
    &&& forall|i: int| 0 <= i < pass.len() ==> #[trigger] out[i] == pass[i]
    &&& forall|a: int, b: int|
        #![trigger pos[a], neg[b]]
        0 <= a < pos.len() && 0 <= b < neg.len() ==> is_fm_combination(
            out[pass.len() + a * neg.len() + b]@,
            pos[a]@,
            neg[b]@,
            x,
        )
}

/// Fourier-Motzkin elimination of `x` from a conjunction in which every
/// relation that mentions `x` is an inequality. The relations without `x`
/// come first, unchanged and in order; then, for each relation with a
/// positive coefficient on `x` and each with a negative one, in order, the
/// inequality the two imply without `x`. If all coefficients of `x` have one
/// sign, no combination is made and `x` drops out with its one-sided bounds.
/// This is the rational shadow: every solution of `rels` satisfies the result
/// (`lemma_fourier_motzkin_sound`), but no integer tightening is applied, so
/// over the integers a solution of the result need not extend to one of
/// `rels` (`2x - 1 <= 0, 1 - 2x <= 0` gives `0 <= 0`).
pub fn fourier_motzkin(rels: Vec<LinRel>, x: usize) -> (out: Vec<LinRel>)
    requires
        uniform_over(rels@, x as int),
        forall|k: int|
            0 <= k < rels@.len() && (#[trigger] rels@[k])@.0[x as int].numer() != 0 ==> rels@[k]@.1
                == Constraint::Le,
    ensures
        is_fm_result(out@, rels@, x as int),
        rels@.len() == 0 ==> out@.len() == 0,
        forall|i: int, k: int|
            #![trigger out@[i], rels@[k]]
            0 <= i < out@.len() && 0 <= k < rels@.len() ==> out@[i]@.0.len() == rels@[k]@.0.len(),
{
    let ghost orig = rels@;
    let ghost xi = x as int;
    let total = rels.len();
    let mut rest = rels;
    let mut pass: Vec<LinRel> = Vec::new();
    let mut pos: Vec<LinRel> = Vec::new();
    let mut neg: Vec<LinRel> = Vec::new();
    let mut k: usize = 0;
    while rest.len() > 0
        invariant
            rest@ == orig.subrange(k as int, orig.len() as int),
            k <= orig.len(),
            orig.len() == total,
            uniform_over(orig, xi),
            xi == x,
            pass@ == orig.subrange(0, k as int).filter(zero_on(xi)),
            pos@ == orig.subrange(0, k as int).filter(pos_on(xi)),
            neg@ == orig.subrange(0, k as int).filter(neg_on(xi)),
        decreases rest@.len(),
    {
        let r = rest.remove(0);
        assert(r == orig[k as int]);
        proof {
            lemma_filter_step(orig, k as int, zero_on(xi));
            lemma_filter_step(orig, k as int, pos_on(xi));
            lemma_filter_step(orig, k as int, neg_on(xi));
        }
        let c = r.lhs().coeff_unchecked(x);
        if c.is_zero() {
            pass.push(r);
        } else if c.is_positive() {
            pos.push(r);
        } else {
            neg.push(r);
        }
        k = k + 1;
        assert(rest@ =~= orig.subrange(k as int, orig.len() as int));
    }
    assert(orig.subrange(0, orig.len() as int) =~= orig);
    let ghost lw = pos@;
    let ghost up = neg@;
    let ghost ps = pass@;
    let ghost w: int = if orig.len() > 0 {
        orig[0]@.0.len() as int
    } else {
        xi + 1
    };
    proof {
        assert forall|k: int| 0 <= k < orig.len() implies (#[trigger] orig[k])@.0.len() == w by {
            assert(orig[k]@.0.len() == orig[0]@.0.len());
        }
        let width = |r: LinRel| r@.0.len() == w;
        assert forall|k: int| 0 <= k < orig.len() implies width(#[trigger] orig[k]) by {}
        lemma_filter_keeps(orig, pos_on(xi), width);
        lemma_filter_keeps(orig, neg_on(xi), width);
        lemma_filter_keeps(orig, zero_on(xi), width);
    }
    let mut out = pass;
    let mut a: usize = 0;
    while a < pos.len()
        invariant
            pos@ == lw,
            neg@ == up,
            ps == orig.filter(zero_on(xi)),
            lw == orig.filter(pos_on(xi)),
            up == orig.filter(neg_on(xi)),
            uniform_over(orig, xi),
            xi == x,
            xi < w,
            forall|i: int| 0 <= i < lw.len() ==> (#[trigger] lw[i])@.0.len() == w,
            forall|i: int| 0 <= i < up.len() ==> (#[trigger] up[i])@.0.len() == w,
            a <= lw.len(),
            forall|i: int| 0 <= i < out@.len() ==> (#[trigger] out@[i])@.0.len() == w,
            forall|k: int| 0 <= k < orig.len() ==> (#[trigger] orig[k])@.0.len() == w,
            out@.len() == ps.len() + a * up.len(),
            forall|i: int| 0 <= i < ps.len() ==> #[trigger] out@[i] == ps[i],
            forall|a2: int, b: int|
                #![trigger lw[a2], up[b]]
                0 <= a2 < a && 0 <= b < up.len() ==> is_fm_combination(
                    out@[ps.len() + a2 * up.len() + b]@,
                    lw[a2]@,
                    up[b]@,
                    xi,
                ),
        decreases lw.len() - a,
    {
        let mut b: usize = 0;
        let ghost base = out@.len();
        let ghost prev = out@;
        while b < neg.len()
            invariant
                pos@ == lw,
                neg@ == up,
                uniform_over(orig, xi),
                xi == x,
                a < lw.len(),
                xi < w,
                forall|i: int| 0 <= i < lw.len() ==> (#[trigger] lw[i])@.0.len() == w,
                forall|i: int| 0 <= i < up.len() ==> (#[trigger] up[i])@.0.len() == w,
                b <= up.len(),
                forall|i: int| 0 <= i < out@.len() ==> (#[trigger] out@[i])@.0.len() == w,
                base == prev.len(),
                out@.len() == base + b,
                forall|i: int| 0 <= i < base ==> #[trigger] out@[i] == prev[i],
                forall|b2: int|
                    0 <= b2 < b ==> is_fm_combination(
                        out@[base + b2]@,
                        lw[a as int]@,
                        #[trigger] up[b2]@,
                        xi,
                    ),
            decreases up.len() - b,
        {
            assert(lw[a as int]@.0.len() == w && up[b as int]@.0.len() == w);
            let c = pos[a].fm_combine(&neg[b], x);
            out.push(c);
            b = b + 1;
        }
        proof {
            assert forall|a2: int, b2: int|
                #![trigger lw[a2], up[b2]]
                0 <= a2 < a + 1 && 0 <= b2 < up.len() implies is_fm_combination(
                out@[ps.len() + a2 * up.len() + b2]@,
                lw[a2]@,
                up[b2]@,
                xi,
            ) by {
                if a2 < a {
                    lemma_grid_index(a2, a as int, b2, up.len() as int);
                    assert(out@[ps.len() + a2 * up.len() + b2] == prev[ps.len() + a2 * up.len() + b2]);
                } else {
                    assert(ps.len() + a2 * up.len() + b2 == base + b2);
                }
            }
            assert((a + 1) * up.len() == a * up.len() + up.len()) by (nonlinear_arith);
        }
        a = a + 1;
    }
    proof {
        if orig.len() == 0 {
            orig.filter_lemma(zero_on(xi));
            assert(out@.len() == ps.len() + lw.len() * up.len());
            assert(lw.len() * up.len() == 0) by (nonlinear_arith)
                requires
                    lw.len() == 0,
            ;
        }
    }
    out
}

/// The value of `x_j` under `env` (which gives `x_1, x_2, ...`); `x_0`
/// stands for the constant slot and is worth 1.
pub open spec fn var_value(env: Seq<int>, j: int) -> int {
    if j == 0 {
        1
    } else {
        env[j - 1]
    }
}

/// `sum_{j < k} s_j * x_j` under `env`.
pub open spec fn eval_upto(s: Seq<RatModel>, env: Seq<int>, k: int) -> Frac
    decreases k,
{
    if k <= 0 {
        Frac { n: 0, d: 1 }
    } else {
        f_add(
            eval_upto(s, env, k - 1),
            f_mul(s[k - 1].frac(), Frac { n: var_value(env, k - 1), d: 1 }),
        )
    }
}

/// The relation holds under the integer assignment `env`.
pub open spec fn holds(r: (Seq<RatModel>, Constraint), env: Seq<int>) -> bool {
    let v = eval_upto(r.0, env, r.0.len() as int);
    match r.1 {
        Constraint::Eq => v.n == 0,
        Constraint::Le => v.n <= 0,
    }
}

proof fn lemma_eval_positive(s: Seq<RatModel>, env: Seq<int>, k: int)
    requires
        all_wf(s),
        k <= s.len(),
    ensures
        eval_upto(s, env, k).d > 0,
    decreases k,
{
    if k > 0 {
        lemma_eval_positive(s, env, k - 1);
        assert(s[k - 1].wf());
        lemma_positive_dens(s[k - 1].frac(), Frac { n: var_value(env, k - 1), d: 1 });
        lemma_positive_dens(
            eval_upto(s, env, k - 1),
            f_mul(s[k - 1].frac(), Frac { n: var_value(env, k - 1), d: 1 }),
        );
    }
}

/// Where each `c_j` is `l_j * a + u_j * b`, the value of `c` is that of
/// `l` times `a` plus that of `u` times `b`.
proof fn lemma_eval_linear(
    c: Seq<RatModel>,
    l: Seq<RatModel>,
    u: Seq<RatModel>,
    env: Seq<int>,
    a: Frac,
    b: Frac,
    k: int,
)
    requires
        c.len() == l.len() == u.len(),
        0 <= k <= c.len(),
        all_wf(c),
        all_wf(l),
        all_wf(u),
        a.d > 0,
        b.d > 0,
        forall|j: int|
            0 <= j < c.len() ==> same(
                #[trigger] c[j].frac(),
                f_add(f_mul(l[j].frac(), a), f_mul(u[j].frac(), b)),
            ),
    ensures
        same(
            eval_upto(c, env, k),
            f_add(f_mul(eval_upto(l, env, k), a), f_mul(eval_upto(u, env, k), b)),
        ),
    decreases k,
{
    if k > 0 {
        lemma_eval_linear(c, l, u, env, a, b, k - 1);
        let ec = eval_upto(c, env, k - 1);
        let el = eval_upto(l, env, k - 1);
        let eu = eval_upto(u, env, k - 1);
        lemma_eval_positive(c, env, k - 1);
        lemma_eval_positive(l, env, k - 1);
        lemma_eval_positive(u, env, k - 1);
        let t = Frac { n: var_value(env, k - 1), d: 1 };
        let ck = c[k - 1].frac();
        let lk = l[k - 1].frac();
        let uk = u[k - 1].frac();
        assert(c[k - 1].wf() && l[k - 1].wf() && u[k - 1].wf());
        let la = f_mul(el, a);
        let ub = f_mul(eu, b);
        let x = f_add(la, ub);
        let y = f_add(f_mul(lk, a), f_mul(uk, b));
        let lat = f_mul(f_mul(lk, a), t);
        let ubt = f_mul(f_mul(uk, b), t);
        let lt = f_mul(lk, t);
        let ut = f_mul(uk, t);
        lemma_positive_dens(el, a);
        lemma_positive_dens(eu, b);
        lemma_positive_dens(la, ub);
        lemma_positive_dens(lk, a);
        lemma_positive_dens(uk, b);
        lemma_positive_dens(f_mul(lk, a), f_mul(uk, b));
        lemma_positive_dens(ck, t);
        lemma_positive_dens(y, t);
        lemma_positive_dens(f_mul(lk, a), t);
        lemma_positive_dens(f_mul(uk, b), t);
        lemma_positive_dens(lat, ubt);
        lemma_positive_dens(lk, t);
        lemma_positive_dens(uk, t);
        lemma_positive_dens(el, lt);
        lemma_positive_dens(eu, ut);
        lemma_positive_dens(f_add(el, lt), a);
        lemma_positive_dens(f_add(eu, ut), b);
        lemma_positive_dens(lt, a);
        lemma_positive_dens(ut, b);
        lemma_positive_dens(la, lat);
        lemma_positive_dens(ub, ubt);
        lemma_positive_dens(ec, f_mul(ck, t));
        lemma_positive_dens(x, f_mul(ck, t));
        lemma_positive_dens(x, f_mul(y, t));
        lemma_positive_dens(x, f_add(lat, ubt));
        lemma_positive_dens(f_add(la, lat), f_add(ub, ubt));
        lemma_positive_dens(f_mul(f_add(el, lt), a), f_mul(f_add(eu, ut), b));
        // ec + ck t  ~  x + ck t
        lemma_add_congruent_left(ec, x, f_mul(ck, t));
        // ~ x + y t
        lemma_mul_congruent(ck, y, t);
        lemma_add_congruent(x, f_mul(ck, t), f_mul(y, t));
        lemma_same_trans(f_add(ec, f_mul(ck, t)), f_add(x, f_mul(ck, t)), f_add(x, f_mul(y, t)));
        // ~ x + (lk a t + uk b t)
        lemma_mul_distributes(f_mul(lk, a), f_mul(uk, b), t);
        lemma_add_congruent(x, f_mul(y, t), f_add(lat, ubt));
        lemma_same_trans(f_add(ec, f_mul(ck, t)), f_add(x, f_mul(y, t)), f_add(x, f_add(lat, ubt)));
        // ~ (el a + lk a t) + (eu b + uk b t)
        lemma_add_swap_middle(la, ub, lat, ubt);
        lemma_same_trans(
            f_add(ec, f_mul(ck, t)),
            f_add(x, f_add(lat, ubt)),
            f_add(f_add(la, lat), f_add(ub, ubt)),
        );
        // lk a t == lk t a
        lemma_mul_swap_last(lk, a, t);
        lemma_mul_swap_last(uk, b, t);
        // (el + lk t) a ~ el a + lk t a
        lemma_mul_distributes(el, lt, a);
        lemma_mul_distributes(eu, ut, b);
        let p1 = f_mul(f_add(el, lt), a);
        let p2 = f_mul(f_add(eu, ut), b);
        lemma_positive_dens(f_add(la, lat), p2);
        lemma_add_congruent_left(p1, f_add(la, lat), p2);
        lemma_add_congruent(f_add(la, lat), p2, f_add(ub, ubt));
        lemma_same_trans(f_add(p1, p2), f_add(f_add(la, lat), p2), f_add(f_add(la, lat), f_add(ub, ubt)));
        lemma_same_trans(
            f_add(ec, f_mul(ck, t)),
            f_add(f_add(la, lat), f_add(ub, ubt)),
            f_add(p1, p2),
        );
        assert(eval_upto(c, env, k) == f_add(ec, f_mul(ck, t)));
        assert(eval_upto(l, env, k) == f_add(el, lt));
        assert(eval_upto(u, env, k) == f_add(eu, ut));
    } else {
        let z = Frac { n: 0, d: 1 };
        let r = f_add(f_mul(z, a), f_mul(z, b));
        assert(r.n == 0) by (nonlinear_arith)
            requires
                r.n == (0 * a.n) * (1 * b.d) + (0 * b.n) * (1 * a.d),
        ;
        assert(z.n * r.d == r.n * z.d) by (nonlinear_arith)
            requires
                r.n == 0,
                z.n == 0,
        ;
    }
}

/// One combination: if `l <= 0` and `u <= 0` hold, with a positive
/// coefficient on `x` in `l` and a negative one in `u`, so does their
/// combination without `x`.
proof fn lemma_combination_holds(
    c: (Seq<RatModel>, Constraint),
    l: (Seq<RatModel>, Constraint),
    u: (Seq<RatModel>, Constraint),
    x: int,
    env: Seq<int>,
)
    requires
        is_fm_combination(c, l, u, x),
        l.1 == Constraint::Le,
        u.1 == Constraint::Le,
        0 <= x < l.0.len(),
        l.0.len() == u.0.len(),
        all_wf(c.0),
        all_wf(l.0),
        all_wf(u.0),
        l.0[x].numer() > 0,
        u.0[x].numer() < 0,
        holds(l, env),
        holds(u, env),
    ensures
        holds(c, env),
{
    let a = crate::rational::f_neg(u.0[x].frac());
    let b = l.0[x].frac();
    assert(l.0[x].wf() && u.0[x].wf());
    let n = c.0.len() as int;
    lemma_eval_linear(c.0, l.0, u.0, env, a, b, n);
    let ec = eval_upto(c.0, env, n);
    let el = eval_upto(l.0, env, n);
    let eu = eval_upto(u.0, env, n);
    lemma_eval_positive(c.0, env, n);
    lemma_eval_positive(l.0, env, n);
    lemma_eval_positive(u.0, env, n);
    let rhs = f_add(f_mul(el, a), f_mul(eu, b));
    lemma_positive_dens(el, a);
    lemma_positive_dens(eu, b);
    lemma_positive_dens(f_mul(el, a), f_mul(eu, b));
    assert(rhs.n <= 0) by (nonlinear_arith)
        requires
            rhs.n == (el.n * a.n) * (eu.d * b.d) + (eu.n * b.n) * (el.d * a.d),
            el.n <= 0,
            eu.n <= 0,
            a.n > 0,
            b.n > 0,
            a.d > 0,
            b.d > 0,
            el.d > 0,
            eu.d > 0,
    ;
    assert(ec.n <= 0) by (nonlinear_arith)
        requires
            ec.n * rhs.d == rhs.n * ec.d,
            rhs.n <= 0,
            rhs.d > 0,
            ec.d > 0,
    ;
}

/// Fourier-Motzkin elimination is sound: an integer assignment that
/// satisfies every relation of the system satisfies every relation of the
/// system with `x` eliminated.
pub proof fn lemma_fourier_motzkin_sound(
    rels: Seq<LinRel>,
    x: int,
    out: Seq<LinRel>,
    env: Seq<int>,
)
    requires
        uniform_over(rels, x),
        forall|k: int|
            0 <= k < rels.len() && (#[trigger] rels[k])@.0[x].numer() != 0 ==> rels[k]@.1
                == Constraint::Le,
        forall|k: int| 0 <= k < rels.len() ==> all_wf((#[trigger] rels[k])@.0),
        forall|i: int| 0 <= i < out.len() ==> all_wf((#[trigger] out[i])@.0),
        is_fm_result(out, rels, x),
        forall|k: int| 0 <= k < rels.len() ==> holds((#[trigger] rels[k])@, env),
    ensures
        forall|i: int| 0 <= i < out.len() ==> holds((#[trigger] out[i])@, env),
{
    let pass = rels.filter(zero_on(x));
    let pos = rels.filter(pos_on(x));
    let neg = rels.filter(neg_on(x));
    let good = |r: LinRel|
        holds(r@, env) && all_wf(r@.0) && 1 <= x < r@.0.len() && (r@.0[x].numer() != 0
            ==> r@.1 == Constraint::Le);
    assert forall|k: int| 0 <= k < rels.len() implies good(#[trigger] rels[k]) by {}
    lemma_filter_keeps(rels, zero_on(x), good);
    lemma_filter_keeps(rels, pos_on(x), good);
    lemma_filter_keeps(rels, neg_on(x), good);
    rels.filter_lemma(pos_on(x));
    rels.filter_lemma(neg_on(x));
    assert forall|i: int| 0 <= i < out.len() implies holds((#[trigger] out[i])@, env) by {
        if i < pass.len() {
            assert(good(pass[i]));
        } else {
            let nn = neg.len() as int;
            let off = i - pass.len();
            assert(nn > 0) by (nonlinear_arith)
                requires
                    off < pos.len() * nn,
                    0 <= off,
            ;
            vstd::arithmetic::div_mod::lemma_fundamental_div_mod(off, nn);
            vstd::arithmetic::div_mod::lemma_mod_bound(off, nn);
            let a = off / nn;
            let b = off % nn;
            assert(0 <= a < pos.len()) by (nonlinear_arith)
                requires
                    off == nn * a + b,
                    0 <= b < nn,
                    0 <= off < pos.len() * nn,
            ;
            assert(i == pass.len() + a * nn + b) by (nonlinear_arith)
                requires
                    off == nn * a + b,
                    off == i - pass.len(),
            ;
            assert(good(pos[a]) && good(neg[b]));
            assert(pos_on(x)(pos[a]) && neg_on(x)(neg[b]));
            assert(is_fm_combination(out[i]@, pos[a]@, neg[b]@, x));
            assert(pos[a]@.0.len() == neg[b]@.0.len()) by {
                let w = rels[0]@.0.len();
                let same_w = |r: LinRel| r@.0.len() == w;
                assert forall|k: int| 0 <= k < rels.len() implies same_w(#[trigger] rels[k]) by {
                    assert(rels[k]@.0.len() == rels[0]@.0.len());
                }
                lemma_filter_keeps(rels, pos_on(x), same_w);
                lemma_filter_keeps(rels, neg_on(x), same_w);
            }
            lemma_combination_holds(out[i]@, pos[a]@, neg[b]@, x, env);
        }
    }
}

/// Where `o` is zero, `s` with `x_i` eliminated by `o` has the sign of `s`.
proof fn lemma_subs_same_sign(
    r: Seq<RatModel>,
    s: (Seq<RatModel>, Constraint),
    o: Seq<RatModel>,
    i: int,
    env: Seq<int>,
)
    requires
        is_subs_result(r, s.0, o, i),
        s.0.len() == o.len(),
        1 <= i < o.len(),
        o[i].numer() != 0,
        all_wf(r),
        all_wf(s.0),
        all_wf(o),
        eval_upto(o, env, o.len() as int).n == 0,
    ensures
        holds((r, s.1), env) == holds(s, env),
{
    let oi = o[i].frac();
    let si = s.0[i].frac();
    assert(o[i].wf() && s.0[i].wf());
    let d = f_div(frac(-1, 1), oi);
    let d2 = if oi.n > 0 {
        Frac { n: -oi.d, d: oi.n }
    } else {
        Frac { n: oi.d, d: -oi.n }
    };
    assert(same(d, d2)) by (nonlinear_arith)
        requires
            d.n == -1 * oi.d,
            d.d == 1 * oi.n,
            oi.n > 0 ==> d2.n == -oi.d && d2.d == oi.n,
            oi.n <= 0 ==> d2.n == oi.d && d2.d == -oi.n,
    ;
    let one = Frac { n: 1, d: 1 };
    let b = f_mul(d2, si);
    lemma_positive_dens(d2, si);
    assert forall|j: int| 0 <= j < r.len() implies same(
        #[trigger] r[j].frac(),
        f_add(f_mul(s.0[j].frac(), one), f_mul(o[j].frac(), b)),
    ) by {
        let sj = s.0[j].frac();
        let oj = o[j].frac();
        assert(s.0[j].wf() && o[j].wf() && r[j].wf());
        // (d * oj) * si  ~  (d2 * oj) * si  ==  oj * (d2 * si)
        lemma_mul_congruent(d, d2, oj);
        lemma_mul_congruent(f_mul(d, oj), f_mul(d2, oj), si);
        assert(f_mul(f_mul(d2, oj), si) == f_mul(oj, b)) by {
            assert((d2.n * oj.n) * si.n == oj.n * (d2.n * si.n)) by (nonlinear_arith);
            assert((d2.d * oj.d) * si.d == oj.d * (d2.d * si.d)) by (nonlinear_arith);
        }
        lemma_add_congruent(sj, f_mul(f_mul(d, oj), si), f_mul(oj, b));
        assert(sj.n * (sj.d * one.d) == (sj.n * one.n) * sj.d) by (nonlinear_arith)
            requires
                one.n == 1,
                one.d == 1,
        ;
        lemma_add_congruent_left(sj, f_mul(sj, one), f_mul(oj, b));
        lemma_nonzero_product(1, oi.n);
        lemma_nonzero_product(d.d, oj.d);
        lemma_nonzero_product(d.d * oj.d, si.d);
        lemma_nonzero_product(sj.d, d.d * oj.d * si.d);
        lemma_positive_dens(oj, b);
        lemma_positive_dens(sj, one);
        lemma_positive_dens(sj, f_mul(oj, b));
        lemma_positive_dens(f_mul(sj, one), f_mul(oj, b));
        assert(r[j].frac() == r[j].frac());
        assert(subs_value(s.0[j], o[j], s.0[i], o[i]) == f_add(sj, f_mul(f_mul(d, oj), si)));
        lemma_same_trans(
            r[j].frac(),
            f_add(sj, f_mul(f_mul(d, oj), si)),
            f_add(sj, f_mul(oj, b)),
        );
        lemma_same_trans(r[j].frac(), f_add(sj, f_mul(oj, b)), f_add(f_mul(sj, one), f_mul(oj, b)));
    }
    let n = r.len() as int;
    lemma_eval_linear(r, s.0, o, env, one, b, n);
    let er = eval_upto(r, env, n);
    let es = eval_upto(s.0, env, n);
    let eo = eval_upto(o, env, n);
    lemma_eval_positive(r, env, n);
    lemma_eval_positive(s.0, env, n);
    lemma_eval_positive(o, env, n);
    lemma_positive_dens(es, one);
    lemma_positive_dens(eo, b);
    let rhs = f_add(f_mul(es, one), f_mul(eo, b));
    lemma_positive_dens(f_mul(es, one), f_mul(eo, b));
    assert(rhs.n == es.n * (eo.d * b.d)) by (nonlinear_arith)
        requires
            rhs.n == (es.n * one.n) * (eo.d * b.d) + (eo.n * b.n) * (es.d * one.d),
            eo.n == 0,
            one.n == 1,
            one.d == 1,
    ;
    assert((er.n <= 0) == (es.n <= 0) && (er.n == 0) == (es.n == 0)) by (nonlinear_arith)
        requires
            er.n * rhs.d == rhs.n * er.d,
            rhs.n == es.n * (eo.d * b.d),
            rhs.d > 0,
            eo.d > 0,
            b.d > 0,
            er.d > 0,
    ;
}

/// A substitution step is sound: an integer assignment under which `s`
/// holds and the equality `o = 0` holds also satisfies `s` with `x_i`
/// eliminated by `o`.
pub proof fn lemma_subs_sound(
    r: Seq<RatModel>,
    s: (Seq<RatModel>, Constraint),
    o: Seq<RatModel>,
    i: int,
    env: Seq<int>,
)
    requires
        is_subs_result(r, s.0, o, i),
        s.0.len() == o.len(),
        1 <= i < o.len(),
        o[i].numer() != 0,
        all_wf(r),
        all_wf(s.0),
        all_wf(o),
        holds(s, env),
        holds((o, Constraint::Eq), env),
    ensures
        holds((r, s.1), env),
{
    lemma_subs_same_sign(r, s, o, i, env);
}

proof fn lemma_ring_point(xn: int, xd: int, sn: int, sd: int, v: int, e: int)
    ensures
        (xn * sd + (sn * v) * xd) * ((xd * sd) * sd) == ((xn * sd + (sn * e) * xd) * sd + (sn * (v
            - e)) * (xd * sd)) * (xd * sd),
{
    assert((sn * e) * xd + (sn * (v - e)) * xd == (sn * v) * xd) by (nonlinear_arith);
    assert((xn * sd + (sn * e) * xd) * sd + (sn * (v - e)) * (xd * sd) == (xn * sd + (sn * v) * xd)
        * sd) by (nonlinear_arith)
        requires
            (sn * e) * xd + (sn * (v - e)) * xd == (sn * v) * xd,
    ;
    assert((xn * sd + (sn * v) * xd) * ((xd * sd) * sd) == ((xn * sd + (sn * v) * xd) * sd) * (xd
        * sd)) by (nonlinear_arith);
}

proof fn lemma_ring_rotate(yn: int, yd: int, dn: int, dd: int, tn: int, td: int)
    ensures
        ((yn * dd + dn * yd) * td + tn * (yd * dd)) * ((yd * td) * dd) == ((yn * td + tn * yd) * dd
            + dn * (yd * td)) * ((yd * dd) * td),
{
    assert((yn * dd + dn * yd) * td + tn * (yd * dd) == yn * dd * td + dn * yd * td + tn * yd * dd)
        by (nonlinear_arith);
    assert((yn * td + tn * yd) * dd + dn * (yd * td) == yn * dd * td + dn * yd * td + tn * yd * dd)
        by (nonlinear_arith);
    assert((yd * td) * dd == (yd * dd) * td) by (nonlinear_arith);
}

/// Changing `x_i` to `v` adds `s_i * (v - x_i)` to the value of `s`.
proof fn lemma_eval_update(s: Seq<RatModel>, env: Seq<int>, i: int, v: int, k: int)
    requires
        all_wf(s),
        1 <= i < s.len(),
        s.len() <= env.len() + 1,
        0 <= k <= s.len(),
    ensures
        k <= i ==> eval_upto(s, env.update(i - 1, v), k) == eval_upto(s, env, k),
        k > i ==> same(
            eval_upto(s, env.update(i - 1, v), k),
            f_add(eval_upto(s, env, k), f_mul(s[i].frac(), Frac { n: v - env[i - 1], d: 1 })),
        ),
    decreases k,
{
    let env2 = env.update(i - 1, v);
    if k > 0 {
        lemma_eval_update(s, env, i, v, k - 1);
        lemma_eval_positive(s, env, k - 1);
        lemma_eval_positive(s, env2, k - 1);
        assert(s[k - 1].wf() && s[i].wf());
        let t = Frac { n: var_value(env, k - 1), d: 1 };
        let t2 = Frac { n: var_value(env2, k - 1), d: 1 };
        let dl = f_mul(s[i].frac(), Frac { n: v - env[i - 1], d: 1 });
        if k - 1 < i {
            assert(t2 == t);
        } else if k - 1 == i {
            let x = eval_upto(s, env, k - 1);
            let si = s[i].frac();
            assert(t2.n == v);
            lemma_ring_point(x.n, x.d, si.n, si.d, v, env[i - 1]);
            assert((si.n * v) * 1 == si.n * v && si.d * 1 == si.d) by (nonlinear_arith);
            assert((si.n * env[i - 1]) * 1 == si.n * env[i - 1]) by (nonlinear_arith);
            assert((si.n * (v - env[i - 1])) * 1 == si.n * (v - env[i - 1])) by (nonlinear_arith);
        } else {
            assert(t2 == t);
            let y = eval_upto(s, env, k - 1);
            let y2 = eval_upto(s, env2, k - 1);
            let st = f_mul(s[k - 1].frac(), t);
            lemma_positive_dens(s[k - 1].frac(), t);
            lemma_positive_dens(s[i].frac(), Frac { n: v - env[i - 1], d: 1 });
            lemma_positive_dens(y, dl);
            lemma_positive_dens(y, st);
            lemma_positive_dens(f_add(y, dl), st);
            lemma_positive_dens(y2, st);
            lemma_positive_dens(f_add(y, st), dl);
            lemma_add_congruent_left(y2, f_add(y, dl), st);
            lemma_ring_rotate(y.n, y.d, dl.n, dl.d, st.n, st.d);
            lemma_same_trans(f_add(y2, st), f_add(f_add(y, dl), st), f_add(f_add(y, st), dl));
        }
    }
}

proof fn lemma_eval_integral(s: Seq<RatModel>, env: Seq<int>, k: int)
    requires
        forall|j: int| 0 <= j < s.len() ==> (#[trigger] s[j]).denom() == 1,
        k <= s.len(),
    ensures
        eval_upto(s, env, k).d == 1,
    decreases k,
{
    if k > 0 {
        lemma_eval_integral(s, env, k - 1);
        let e = eval_upto(s, env, k - 1);
        let sk = s[k - 1].frac();
        assert(e.d * (sk.d * 1) == 1) by (nonlinear_arith)
            requires
                e.d == 1,
                sk.d == 1,
        ;
    }
}

/// A substitution step with a pivot coefficient of 1 or -1 and integer
/// coefficients loses no integer solution: an integer assignment that
/// satisfies `s` with `x_i` eliminated by `o` becomes, with a suitable
/// integer value of `x_i`, one that satisfies both `s` and `o = 0`.
pub proof fn lemma_subs_exact_unit(
    r: Seq<RatModel>,
    s: (Seq<RatModel>, Constraint),
    o: Seq<RatModel>,
    i: int,
    env: Seq<int>,
)
    requires
        is_subs_result(r, s.0, o, i),
        s.0.len() == o.len(),
        1 <= i < o.len(),
        o.len() <= env.len() + 1,
        all_wf(r),
        all_wf(s.0),
        all_wf(o),
        o[i].numer() == 1 || o[i].numer() == -1,
        forall|j: int| 0 <= j < o.len() ==> (#[trigger] o[j]).denom() == 1,
        holds((r, s.1), env),
    ensures
        exists|v: int|
            holds(s, #[trigger] env.update(i - 1, v)) && holds((o, Constraint::Eq), env.update(i - 1, v)),
{
    let n = o.len() as int;
    let e = eval_upto(o, env, n);
    lemma_eval_integral(o, env, n);
    let a = o[i].numer();
    assert(o[i].denom() == 1);
    let v = env[i - 1] - e.n * a;
    let env2 = env.update(i - 1, v);
    // the equality holds at env2
    lemma_eval_update(o, env, i, v, n);
    let oi = o[i].frac();
    let dv = f_mul(oi, Frac { n: v - env[i - 1], d: 1 });
    let eo2 = eval_upto(o, env2, n);
    lemma_eval_positive(o, env2, n);
    assert(f_add(e, dv).n == 0) by (nonlinear_arith)
        requires
            f_add(e, dv).n == e.n * dv.d + dv.n * e.d,
            dv.n == oi.n * (v - env[i - 1]),
            dv.d == oi.d * 1,
            oi.d == 1,
            e.d == 1,
            v - env[i - 1] == -(e.n * a),
            oi.n == a,
            a == 1 || a == -1,
    ;
    assert(eo2.n == 0) by (nonlinear_arith)
        requires
            eo2.n * f_add(e, dv).d == f_add(e, dv).n * eo2.d,
            f_add(e, dv).n == 0,
            f_add(e, dv).d == e.d * dv.d,
            e.d == 1,
            dv.d == 1,
    ;
    // the eliminated relation does not depend on x_i
    let si = s.0[i].frac();
    assert(s.0[i].wf() && r[i].wf() && o[i].wf());
    let sv = subs_value(s.0[i], o[i], s.0[i], o[i]);
    assert(same(r[i].frac(), sv));
    assert(sv.n == 0 && sv.d != 0) by (nonlinear_arith)
        requires
            sv == f_add(si, f_mul(f_mul(f_div(frac(-1, 1), oi), oi), si)),
            oi.d == 1,
            oi.n == 1 || oi.n == -1,
            si.d > 0,
    ;
    assert(r[i].numer() == 0) by (nonlinear_arith)
        requires
            r[i].frac().n * sv.d == sv.n * r[i].frac().d,
            sv.n == 0,
            sv.d != 0,
            r[i].frac().n == r[i].numer(),
    ;
    lemma_eval_update(r, env, i, v, n);
    let er = eval_upto(r, env, n);
    let er2 = eval_upto(r, env2, n);
    let rv = f_mul(r[i].frac(), Frac { n: v - env[i - 1], d: 1 });
    lemma_eval_positive(r, env, n);
    lemma_eval_positive(r, env2, n);
    assert((er2.n <= 0) == (er.n <= 0) && (er2.n == 0) == (er.n == 0)) by (nonlinear_arith)
        requires
            er2.n * (er.d * rv.d) == (er.n * rv.d + rv.n * er.d) * er2.d,
            rv.n == r[i].frac().n * (v - env[i - 1]),
            r[i].frac().n == 0,
            rv.d == r[i].frac().d * 1,
            r[i].frac().d > 0,
            er.d > 0,
            er2.d > 0,
    ;
    assert(holds((r, s.1), env2));
    lemma_subs_same_sign(r, s, o, i, env2);
    assert(holds(s, env2) && holds((o, Constraint::Eq), env2));
}

} // verus!
