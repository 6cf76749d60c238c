//! Integer rounding used to tighten bounds to integers: floor division and
//! the symmetric modulo.
use vstd::prelude::*;

verus! {

/// `floor(n / d)`, rounding towards negative infinity, for `d != 0`.
pub open spec fn floor_div(n: int, d: int) -> int {
    if d > 0 {
        n / d
    } else {
        (-n) / (-d)
    }
}

/// Symmetric modulo: `a - b * floor(a / b + 1/2)`.
pub open spec fn symmod_of(a: int, b: int) -> int {
    a - b * floor_div(2 * a + b, 2 * b)
}

/// The Euclidean remainder of `a` by `b`, less `b` when it is at least
/// `b / 2`.
pub open spec fn symmod_alt_of(a: int, b: int) -> int {
    if 2 * (a % b) < b {
        a % b
    } else {
        a % b - b
    }
}

proof fn lemma_floor_div_bounds(n: int, d: int)
    requires
        d != 0,
    ensures
        d > 0 ==> floor_div(n, d) * d <= n < (floor_div(n, d) + 1) * d,
        d < 0 ==> (floor_div(n, d) + 1) * d < n <= floor_div(n, d) * d,
{
    if d > 0 {
        vstd::arithmetic::div_mod::lemma_fundamental_div_mod(n, d);
        vstd::arithmetic::div_mod::lemma_mod_bound(n, d);
        let q = n / d;
        let r = n % d;
        assert(q * d <= n < q * d + d) by (nonlinear_arith)
            requires
                n == d * q + r,
                0 <= r < d,
        ;
        assert((q + 1) * d == q * d + d) by (nonlinear_arith);
    } else {
        vstd::arithmetic::div_mod::lemma_fundamental_div_mod(-n, -d);
        vstd::arithmetic::div_mod::lemma_mod_bound(-n, -d);
        let q = (-n) / (-d);
        let r = (-n) % (-d);
        assert(q * (-d) <= -n < q * (-d) + (-d)) by (nonlinear_arith)
            requires
                -n == (-d) * q + r,
                0 <= r < -d,
        ;
        assert(q * d == -(q * (-d))) by (nonlinear_arith);
        assert((q + 1) * d == q * d + d) by (nonlinear_arith);
    }
}

proof fn lemma_floor_div_unique(n: int, d: int, q: int)
    requires
        d > 0,
        q * d <= n < (q + 1) * d,
    ensures
        q == floor_div(n, d),
{
    lemma_floor_div_bounds(n, d);
    let f = floor_div(n, d);
    if q < f {
        assert((q + 1) * d <= f * d) by (nonlinear_arith)
            requires
                q + 1 <= f,
                d > 0,
        ;
    }
    if q > f {
        assert((f + 1) * d <= q * d) by (nonlinear_arith)
            requires
                f + 1 <= q,
                d > 0,
        ;
    }
}

/// Integer quotient of `num` by `den`, rounding towards negative infinity
/// whatever the signs (truncating division rounds towards zero instead).
pub fn div_floor(num: i64, den: i64) -> (r: i64)
    requires
        den != 0,
        !(num == i64::MIN && den == -1),
    ensures
        r == floor_div(num as int, den as int),
        den > 0 ==> r * den <= num < (r + 1) * den,
        den < 0 ==> (r + 1) * den < num <= r * den,
{
    proof {
        lemma_floor_div_bounds(num as int, den as int);
    }
    // with a positive divisor the Euclidean quotient is the floor
    let (n, d): (i128, i128) = if den > 0 {
        (num as i128, den as i128)
    } else {
        (-(num as i128), -(den as i128))
    };
    proof {
        let f = floor_div(num as int, den as int);
        lemma_floor_div_bounds(n as int, d as int);
        assert(floor_div(n as int, d as int) == f);
        assert(i64::MIN <= f <= i64::MAX) by (nonlinear_arith)
            requires
                d > 0,
                f * d <= n < (f + 1) * d,
                -0x8000_0000_0000_0000 <= n <= 0x8000_0000_0000_0000,
                n == 0x8000_0000_0000_0000 ==> d >= 2,
        ;
    }
    match n.checked_div_euclid(d) {
        Some(q) => q as i64,
        None => 0,
    }
}

/// Symmetric modulo: `a - b * floor(a / b + 1/2)`, computed as
/// `a - b * floor((2a + b) / 2b)`.
pub fn symmod(a: i64, b: i64) -> (r: i64)
    requires
        b != 0,
        i64::MIN <= 2 * a + b <= i64::MAX,
        i64::MIN <= 2 * b <= i64::MAX,
    ensures
        r == symmod_of(a as int, b as int),
        b > 0 ==> -b <= 2 * r < b,
        b < 0 ==> b < 2 * r <= -b,
{
    let n: i128 = 2 * (a as i128) + (b as i128);
    let q = div_floor(n as i64, 2 * b);
    proof {
        assert(-0x8000_0000_0000_0000 * 0x8000_0000_0000_0000 <= (b as int) * (q as int)
            <= 0x8000_0000_0000_0000 * 0x8000_0000_0000_0000) by (nonlinear_arith)
            requires
                -0x8000_0000_0000_0000 <= b <= 0x8000_0000_0000_0000,
                -0x8000_0000_0000_0000 <= q <= 0x8000_0000_0000_0000,
        ;
    }
    let r: i128 = a as i128 - (b as i128) * (q as i128);
    proof {
        let n = 2 * a + b;
        let d = 2 * b;
        if b > 0 {
            assert(-b <= 2 * r < b) by (nonlinear_arith)
                requires
                    q * d <= n < (q + 1) * d,
                    r == a - b * q,
                    n == 2 * a + b,
                    d == 2 * b,
            ;
        } else {
            assert(b < 2 * r <= -b) by (nonlinear_arith)
                requires
                    (q + 1) * d < n <= q * d,
                    r == a - b * q,
                    n == 2 * a + b,
                    d == 2 * b,
            ;
        }
    }
    r as i64
}

/// Symmetric modulo by the Euclidean remainder: `a mod b` if that is less
/// than `b / 2`, else `(a mod b) - b`.
pub fn symmod_alt(a: i64, b: i64) -> (r: i64)
    requires
        b != 0,
        !(a == i64::MIN && b == -1),
        i64::MIN <= symmod_alt_of(a as int, b as int) <= i64::MAX,
    ensures
        r == symmod_alt_of(a as int, b as int),
{
    let amb: i64 = match a.checked_rem_euclid(b) {
        Some(m) => m,
        None => 0,
    };
    if 2 * (amb as i128) < b as i128 {
        amb
    } else {
        ((amb as i128) - (b as i128)) as i64
    }
}

/// For a positive modulus the two formulations of the symmetric modulo agree.
pub proof fn lemma_symmod_equivalent(a: int, b: int)
    requires
        b > 0,
    ensures
        symmod_of(a, b) == symmod_alt_of(a, b),
{
    vstd::arithmetic::div_mod::lemma_fundamental_div_mod(a, b);
    vstd::arithmetic::div_mod::lemma_mod_bound(a, b);
    let q0 = a / b;
    let m = a % b;
    let n = 2 * a + b;
    let d = 2 * b;
    if 2 * m < b {
        assert(q0 * d <= n < (q0 + 1) * d) by (nonlinear_arith)
            requires
                a == b * q0 + m,
                0 <= m,
                2 * m < b,
                n == 2 * a + b,
                d == 2 * b,
        ;
        lemma_floor_div_unique(n, d, q0);
        assert(a - b * q0 == m);
    } else {
        assert((q0 + 1) * d <= n < (q0 + 2) * d) by (nonlinear_arith)
            requires
                a == b * q0 + m,
                m < b,
                2 * m >= b,
                n == 2 * a + b,
                d == 2 * b,
        ;
        lemma_floor_div_unique(n, d, q0 + 1);
        assert(a - b * (q0 + 1) == m - b) by (nonlinear_arith)
            requires
                a == b * q0 + m,
        ;
    }
}

} // verus!
