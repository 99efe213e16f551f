//! Saturating fixed-point arithmetic.
//!
//! Every physical quantity is an `i64` that counts billionths of a unit.
//! Results are computed exactly over the integers, rounded toward zero and
//! then brought into the symmetric range `-LIMIT ..= LIMIT`, so that every
//! operation is total and negation of a result is always exact.
use vstd::prelude::*;

verus! {

/// Number of raw units that make up the value one.
pub const SCALE: i64 = 1_000_000_000;

/// Largest magnitude a stored quantity can take.
pub const LIMIT: i64 = 0x7fff_ffff_ffff_ffff;

/// The circle constant, to nine decimal places.
pub const PI: i64 = 3_141_592_654;

/// Absolute value of an integer.
pub open spec fn abs(x: int) -> int {
    if x < 0 {
        -x
    } else {
        x
    }
}

/// The value `x` brought into the symmetric range of stored quantities.
pub open spec fn sat(x: int) -> int {
    if x > LIMIT {
        LIMIT as int
    } else if x < -LIMIT {
        -(LIMIT as int)
    } else {
        x
    }
}

/// Quotient of `n` by `d` rounded toward zero; zero where `d` is zero.
pub open spec fn tquot(n: int, d: int) -> int {
    if d == 0 {
        0
    } else if (n >= 0) == (d > 0) {
        abs(n) / abs(d)
    } else {
        -(abs(n) / abs(d))
    }
}

/// Negation of a quantity.
pub open spec fn fx_neg_spec(a: i64) -> i64 {
    sat(-a) as i64
}

/// Sum of two quantities.
pub open spec fn fx_add_spec(a: i64, b: i64) -> i64 {
    sat(a + b) as i64
}

/// Difference of two quantities.
pub open spec fn fx_sub_spec(a: i64, b: i64) -> i64 {
    sat(a - b) as i64
}

/// `a * b / c` with a single rounding.
pub open spec fn mul_div_spec(a: i64, b: i64, c: i64) -> i64 {
    sat(tquot(a * b, c as int)) as i64
}

/// Product of two quantities.
pub open spec fn fx_mul_spec(a: i64, b: i64) -> i64 {
    mul_div_spec(a, b, SCALE)
}

/// Quotient of two quantities; zero where the divisor is zero.
pub open spec fn fx_div_spec(a: i64, b: i64) -> i64 {
    mul_div_spec(a, SCALE, b)
}

/// Third power of a quantity.
pub open spec fn fx_cube_spec(a: i64) -> i64 {
    fx_mul_spec(fx_mul_spec(a, a), a)
}

/// Mean of `v1` and `v2` weighted by `m1` and `m2`, rounded toward zero;
/// zero where the weights sum to zero.
pub open spec fn weighted_mean_spec(m1: i64, v1: i64, m2: i64, v2: i64) -> i64 {
    sat(tquot(m1 * v1 + m2 * v2, m1 + m2)) as i64
}

/// Half of the exact sum of two quantities, rounded toward zero.
pub open spec fn fx_mid_spec(a: i64, b: i64) -> i64 {
    sat(tquot(a + b, 2)) as i64
}

/// `r` is the integer square root of `n`.
pub open spec fn is_isqrt(n: int, r: int) -> bool {
    0 <= r && r * r <= n && n < (r + 1) * (r + 1)
}

/// The integer square root of `n`: the largest `r` with `r * r <= n`.
pub open spec fn isqrt(n: int) -> int {
    choose|r: int| is_isqrt(n, r)
}

/// `r` is the integer cube root of `n`.
pub open spec fn is_icbrt(n: int, r: int) -> bool {
    0 <= r && r * r * r <= n && n < (r + 1) * (r + 1) * (r + 1)
}

/// The integer cube root of `n`: the largest `r` with `r * r * r <= n`.
pub open spec fn icbrt(n: int) -> int {
    choose|r: int| is_icbrt(n, r)
}

/// Cube root of a quantity; zero for a quantity that is not positive.
pub open spec fn fx_cbrt_spec(a: i64) -> i64 {
    if a <= 0 {
        0
    } else {
        icbrt(a * SCALE * SCALE) as i64
    }
}

/// A number has at most one integer square root.
pub proof fn lemma_isqrt_unique(n: int, a: int, b: int)
    requires
        is_isqrt(n, a),
        is_isqrt(n, b),
    ensures
        a == b,
{
    if a < b {
        assert((a + 1) * (a + 1) <= b * b) by (nonlinear_arith)
            requires
                0 <= a,
                a + 1 <= b,
        ;
    }
    if b < a {
        assert((b + 1) * (b + 1) <= a * a) by (nonlinear_arith)
            requires
                0 <= b,
                b + 1 <= a,
        ;
    }
}

/// A number has at most one integer cube root.
pub proof fn lemma_icbrt_unique(n: int, a: int, b: int)
    requires
        is_icbrt(n, a),
        is_icbrt(n, b),
    ensures
        a == b,
{
    if a < b {
        assert((a + 1) * (a + 1) * (a + 1) <= b * b * b) by (nonlinear_arith)
            requires
                0 <= a,
                a + 1 <= b,
        ;
    }
    if b < a {
        assert((b + 1) * (b + 1) * (b + 1) <= a * a * a) by (nonlinear_arith)
            requires
                0 <= b,
                b + 1 <= a,
        ;
    }
}

/// Every number that is not negative has an integer square root, and
/// `isqrt` names it.
pub proof fn lemma_isqrt_exists(n: int)
    requires
        n >= 0,
    ensures
        is_isqrt(n, isqrt(n)),
    decreases n,
{
    if n == 0 {
        assert(is_isqrt(0, 0));
    } else {
        lemma_isqrt_exists(n - 1);
        let r: int = isqrt(n - 1);
        if n < (r + 1) * (r + 1) {
            assert(is_isqrt(n, r));
        } else {
            assert((r + 1) * (r + 1) < (r + 2) * (r + 2)) by (nonlinear_arith)
                requires
                    r >= 0,
            ;
            assert(is_isqrt(n, r + 1));
        }
    }
}

/// Every number that is not negative has an integer cube root, and `icbrt`
/// names it.
pub proof fn lemma_icbrt_exists(n: int)
    requires
        n >= 0,
    ensures
        is_icbrt(n, icbrt(n)),
    decreases n,
{
    if n == 0 {
        assert(is_icbrt(0, 0));
    } else {
        lemma_icbrt_exists(n - 1);
        let r: int = icbrt(n - 1);
        if n < (r + 1) * (r + 1) * (r + 1) {
            assert(is_icbrt(n, r));
        } else {
            assert((r + 1) * (r + 1) * (r + 1) < (r + 2) * (r + 2) * (r + 2)) by (nonlinear_arith)
                requires
                    r >= 0,
            ;
            assert(is_icbrt(n, r + 1));
        }
    }
}

/// The weighted mean times the total weight misses the weighted sum by less
/// than the total weight.
pub proof fn lemma_weighted_mean_bound(m1: i64, v1: i64, m2: i64, v2: i64)
    requires
        m1 >= 0,
        m2 >= 0,
        m1 + m2 > 0,
        -LIMIT <= v1,
        -LIMIT <= v2,
    ensures
        abs((m1 + m2) * weighted_mean_spec(m1, v1, m2, v2) - (m1 * v1 + m2 * v2)) < m1 + m2,
{
    let p: int = m1 * v1 + m2 * v2;
    let m: int = m1 + m2;
    let lim: int = LIMIT as int;
    assert(-(m * lim) <= p <= m * lim) by (nonlinear_arith)
        requires
            p == m1 * v1 + m2 * v2,
            m == m1 + m2,
            m1 >= 0,
            m2 >= 0,
            -lim <= v1 <= lim,
            -lim <= v2 <= lim,
    ;
    let a: int = abs(p);
    let q: int = a / m;
    vstd::arithmetic::div_mod::lemma_fundamental_div_mod(a, m);
    vstd::arithmetic::div_mod::lemma_mod_bound(a, m);
    assert(0 <= q <= lim) by (nonlinear_arith)
        requires
            a == m * q + a % m,
            0 <= a % m < m,
            0 <= a <= m * lim,
            m > 0,
    ;
    let t: int = tquot(p, m);
    assert(t == if p >= 0 {
        q
    } else {
        -q
    });
    assert(sat(t) == t);
    assert(weighted_mean_spec(m1, v1, m2, v2) == t);
    assert(m * (-q) == -(m * q)) by (nonlinear_arith);
}

/// Negating a factor negates `a * b / c`.
pub proof fn lemma_mul_div_neg(a: i64, b: i64, c: i64)
    requires
        -LIMIT <= a,
    ensures
        mul_div_spec((-a) as i64, b, c) == -mul_div_spec(a, b, c),
{
    let n: int = a as int * b as int;
    assert((-a) * b == -n) by (nonlinear_arith)
        requires
            n == a as int * b as int,
    ;
}

/// The order of the factors of `a * b / c` does not matter.
pub proof fn lemma_mul_div_commutes(a: i64, b: i64, c: i64)
    ensures
        mul_div_spec(a, b, c) == mul_div_spec(b, a, c),
{
    assert(a as int * b as int == b as int * a as int) by (nonlinear_arith);
}

/// With a first factor of size at most `c` the size of `a * b / c` is at
/// most that of `b`.
pub proof fn lemma_mul_div_shrinks(a: i64, b: i64, c: i64)
    requires
        c > 0,
        -c <= a <= c,
        -LIMIT <= b,
    ensures
        abs(mul_div_spec(a, b, c) as int) <= abs(b as int),
{
    let n: int = a as int * b as int;
    let m: int = abs(n);
    let bound: int = abs(b as int);
    assert(m <= c * bound) by (nonlinear_arith)
        requires
            n == a as int * b as int,
            m == abs(n),
            bound == abs(b as int),
            -c <= a <= c,
            c > 0,
    ;
    assert(m / (c as int) <= bound && m / (c as int) >= 0) by (nonlinear_arith)
        requires
            0 <= m <= c * bound,
            c > 0,
    ;
}

/// With factors that are not negative, `a * b / c` does not fall where a
/// factor grows, and does not grow where the divisor grows.
pub proof fn lemma_mul_div_monotone(a: i64, a2: i64, b: i64, c: i64, c2: i64)
    requires
        0 <= a <= a2,
        0 <= b,
        0 < c2 <= c,
    ensures
        0 <= mul_div_spec(a, b, c) <= mul_div_spec(a2, b, c2),
{
    let n: int = a as int * b as int;
    let n2: int = a2 as int * b as int;
    assert(0 <= n <= n2) by (nonlinear_arith)
        requires
            n == a as int * b as int,
            n2 == a2 as int * b as int,
            0 <= a <= a2,
            0 <= b,
    ;
    vstd::arithmetic::div_mod::lemma_div_is_ordered(n, n2, c as int);
    vstd::arithmetic::div_mod::lemma_div_is_ordered_by_denominator(n2, c2 as int, c as int);
    vstd::arithmetic::div_mod::lemma_div_is_ordered(0, n, c as int);
    assert(0int / (c as int) == 0) by (nonlinear_arith)
        requires
            c > 0,
    ;
}

/// A lower bound for `a * b / c`: with factors of at least `a0` and `b0`
/// the result is at least every `q` with `q * c <= a0 * b0`.
pub proof fn lemma_mul_div_at_least(a: i64, b: i64, c: i64, a0: int, b0: int, q: int)
    requires
        0 <= a0 <= a,
        0 <= b0 <= b,
        c > 0,
        q * c <= a0 * b0,
        0 <= q <= LIMIT,
    ensures
        mul_div_spec(a, b, c) >= q,
{
    let n: int = a as int * b as int;
    assert(n >= a0 * b0 && n >= 0) by (nonlinear_arith)
        requires
            n == a as int * b as int,
            0 <= a0 <= a,
            0 <= b0 <= b,
    ;
    assert(n / (c as int) >= q) by (nonlinear_arith)
        requires
            n >= q * c,
            c > 0,
    ;
}

/// The cube root of a positive quantity is the integer cube root of the
/// quantity times the square of the scale, and can be stored.
pub proof fn lemma_fx_cbrt_is_root(a: i64)
    requires
        a > 0,
    ensures
        is_icbrt(a * SCALE * SCALE, fx_cbrt_spec(a) as int),
        0 <= fx_cbrt_spec(a) < 0x400_0000_0000,
{
    let n: int = a * SCALE * SCALE;
    assert(0 <= n <= 0x7fff_ffff_ffff_ffff * 1_000_000_000 * 1_000_000_000) by (nonlinear_arith)
        requires
            n == a * SCALE * SCALE,
            0 < a <= 0x7fff_ffff_ffff_ffff,
            SCALE == 1_000_000_000,
    ;
    lemma_icbrt_exists(n);
    let r: int = icbrt(n);
    if r >= 0x400_0000_0000 {
        assert(r * r * r >= 0x400_0000_0000int * 0x400_0000_0000int * 0x400_0000_0000int)
            by (nonlinear_arith)
            requires
                r >= 0x400_0000_0000,
        ;
    }
}

/// The cube root of a quantity of at least one raw unit is at least a
/// thousandth.
pub proof fn lemma_fx_cbrt_at_least(a: i64)
    requires
        a >= 1,
    ensures
        fx_cbrt_spec(a) >= 1_000_000,
{
    lemma_fx_cbrt_is_root(a);
    let n: int = a * SCALE * SCALE;
    let r: int = fx_cbrt_spec(a) as int;
    assert(n >= 1_000_000_000_000_000_000) by (nonlinear_arith)
        requires
            n == a * SCALE * SCALE,
            a >= 1,
            SCALE == 1_000_000_000,
    ;
    if r < 1_000_000 {
        assert((r + 1) * (r + 1) * (r + 1) <= 1_000_000int * 1_000_000int * 1_000_000int)
            by (nonlinear_arith)
            requires
                0 <= r,
                r + 1 <= 1_000_000,
        ;
    }
}

fn magnitude(a: i64) -> (r: u64)
    ensures
        r == abs(a as int),
{
    if a >= 0 {
        a as u64
    } else if a == i64::MIN {
        0x8000_0000_0000_0000u64
    } else {
        (-a) as u64
    }
}

fn with_sign(negative: bool, m: u128) -> (r: i64)
    ensures
        r == sat(
            if negative {
                -(m as int)
            } else {
                m as int
            },
        ),
{
    if m > 0x7fff_ffff_ffff_ffffu128 {
        if negative {
            -LIMIT
        } else {
            LIMIT
        }
    } else {
        let v: i64 = m as i64;
        if negative {
            -v
        } else {
            v
        }
    }
}

/// Negation.
pub fn fx_neg(a: i64) -> (r: i64)
    ensures
        r == fx_neg_spec(a),
{
    if a == i64::MIN {
        LIMIT
    } else {
        -a
    }
}

/// Saturating sum.
pub fn fx_add(a: i64, b: i64) -> (r: i64)
    ensures
        r == fx_add_spec(a, b),
{
    let s: i128 = a as i128 + b as i128;
    if s > LIMIT as i128 {
        LIMIT
    } else if s < -(LIMIT as i128) {
        -LIMIT
    } else {
        s as i64
    }
}

/// Saturating difference.
pub fn fx_sub(a: i64, b: i64) -> (r: i64)
    ensures
        r == fx_sub_spec(a, b),
{
    let s: i128 = a as i128 - b as i128;
    if s > LIMIT as i128 {
        LIMIT
    } else if s < -(LIMIT as i128) {
        -LIMIT
    } else {
        s as i64
    }
}

/// `a * b / c`, rounded toward zero once and then saturated; zero where `c`
/// is zero.
pub fn mul_div(a: i64, b: i64, c: i64) -> (r: i64)
    ensures
        r == mul_div_spec(a, b, c),
{
    if c == 0 {
        return 0;
    }
    let ma: u128 = magnitude(a) as u128;
    let mb: u128 = magnitude(b) as u128;
    let mc: u128 = magnitude(c) as u128;
    proof {
        assert(ma * mb <= 0x8000_0000_0000_0000 * 0x8000_0000_0000_0000) by (nonlinear_arith)
            requires
                ma <= 0x8000_0000_0000_0000,
                mb <= 0x8000_0000_0000_0000,
        ;
        let ia: int = a as int;
        let ib: int = b as int;
        assert(abs(ia * ib) == abs(ia) * abs(ib)) by (nonlinear_arith);
        assert((ia * ib > 0) ==> ((ia < 0) == (ib < 0))) by (nonlinear_arith);
        assert((ia * ib < 0) ==> ((ia < 0) != (ib < 0))) by (nonlinear_arith);
    }
    let p: u128 = ma * mb;
    let q: u128 = p / mc;
    let negative: bool = ((a < 0) != (b < 0)) != (c < 0);
    proof {
        if p == 0 {
            assert(0int / (mc as int) == 0) by (nonlinear_arith)
                requires
                    mc > 0,
            ;
        }
    }
    with_sign(negative, q)
}

/// Saturating fixed-point product.
pub fn fx_mul(a: i64, b: i64) -> (r: i64)
    ensures
        r == fx_mul_spec(a, b),
{
    mul_div(a, b, SCALE)
}

/// Saturating fixed-point quotient; zero where `b` is zero.
pub fn fx_div(a: i64, b: i64) -> (r: i64)
    ensures
        r == fx_div_spec(a, b),
{
    mul_div(a, SCALE, b)
}

/// Third power.
pub fn fx_cube(a: i64) -> (r: i64)
    ensures
        r == fx_cube_spec(a),
{
    fx_mul(fx_mul(a, a), a)
}

/// Half of the exact sum of `a` and `b`, rounded toward zero.
pub fn fx_mid(a: i64, b: i64) -> (r: i64)
    ensures
        r == fx_mid_spec(a, b),
{
    let s: i128 = a as i128 + b as i128;
    let negative: bool = s < 0;
    let m: u128 = if negative {
        (-s) as u128
    } else {
        s as u128
    };
    with_sign(negative, m / 2)
}

/// Mean of `v1` and `v2` weighted by the non-negative weights `m1` and `m2`,
/// rounded toward zero; zero where both weights are zero.
pub fn weighted_mean(m1: i64, v1: i64, m2: i64, v2: i64) -> (r: i64)
    requires
        m1 >= 0,
        m2 >= 0,
    ensures
        r == weighted_mean_spec(m1, v1, m2, v2),
{
    let total: u128 = m1 as u128 + m2 as u128;
    if total == 0 {
        return 0;
    }
    proof {
        let a: int = m1 as int;
        let b: int = v1 as int;
        let c: int = m2 as int;
        let d: int = v2 as int;
        assert(-0x7fff_ffff_ffff_ffff * 0x8000_0000_0000_0000 <= a * b <= 0x7fff_ffff_ffff_ffff
            * 0x8000_0000_0000_0000) by (nonlinear_arith)
            requires
                0 <= a <= 0x7fff_ffff_ffff_ffff,
                -0x8000_0000_0000_0000 <= b <= 0x8000_0000_0000_0000,
        ;
        assert(-0x7fff_ffff_ffff_ffff * 0x8000_0000_0000_0000 <= c * d <= 0x7fff_ffff_ffff_ffff
            * 0x8000_0000_0000_0000) by (nonlinear_arith)
            requires
                0 <= c <= 0x7fff_ffff_ffff_ffff,
                -0x8000_0000_0000_0000 <= d <= 0x8000_0000_0000_0000,
        ;
    }
    let first: i128 = (m1 as i128) * (v1 as i128);
    let second: i128 = (m2 as i128) * (v2 as i128);
    let p: i128 = first + second;
    let negative: bool = p < 0;
    let m: u128 = if negative {
        (-p) as u128
    } else {
        p as u128
    };
    with_sign(negative, m / total)
}

/// Integer square root by bisection.
pub fn int_sqrt(n: u128) -> (r: u64)
    ensures
        is_isqrt(n as int, r as int),
        r == isqrt(n as int),
{
    let mut lo: u128 = 0;
    let mut hi: u128 = 0x1_0000_0000_0000_0000u128;
    assert(0x1_0000_0000_0000_0000int * 0x1_0000_0000_0000_0000int
        == 0x1_0000_0000_0000_0000_0000_0000_0000_0000int) by (nonlinear_arith);
    while hi - lo > 1
        invariant
            lo < hi <= 0x1_0000_0000_0000_0000u128,
            lo * lo <= n,
            n < hi * hi,
        decreases hi - lo,
    {
        let mid: u128 = lo + (hi - lo) / 2;
        assert(mid * mid <= 0xffff_ffff_ffff_ffff * 0xffff_ffff_ffff_ffff) by (nonlinear_arith)
            requires
                mid <= 0xffff_ffff_ffff_ffff,
        ;
        if mid * mid <= n {
            lo = mid;
        } else {
            hi = mid;
        }
    }
    proof {
        assert(is_isqrt(n as int, lo as int));
        lemma_isqrt_unique(n as int, lo as int, isqrt(n as int));
    }
    lo as u64
}

/// Integer cube root by bisection, for arguments below `2^126`.
pub fn int_cbrt(n: u128) -> (r: u64)
    requires
        n < 0x4000_0000_0000_0000_0000_0000_0000_0000u128,
    ensures
        is_icbrt(n as int, r as int),
        r == icbrt(n as int),
{
    let mut lo: u128 = 0;
    let mut hi: u128 = 0x400_0000_0000u128;
    assert(0x400_0000_0000int * 0x400_0000_0000int * 0x400_0000_0000int
        == 0x4000_0000_0000_0000_0000_0000_0000_0000int) by (nonlinear_arith);
    while hi - lo > 1
        invariant
            lo < hi <= 0x400_0000_0000u128,
            lo * lo * lo <= n,
            n < hi * hi * hi,
        decreases hi - lo,
    {
        let mid: u128 = lo + (hi - lo) / 2;
        assert(mid * mid <= 0x400_0000_0000 * 0x400_0000_0000 && mid * mid * mid
            <= 0x400_0000_0000 * 0x400_0000_0000 * 0x400_0000_0000) by (nonlinear_arith)
            requires
                mid <= 0x400_0000_0000,
        ;
        if mid * mid * mid <= n {
            lo = mid;
        } else {
            hi = mid;
        }
    }
    proof {
        assert(is_icbrt(n as int, lo as int));
        lemma_icbrt_unique(n as int, lo as int, icbrt(n as int));
    }
    lo as u64
}

/// Cube root of a quantity; zero for a quantity that is not positive.
pub fn fx_cbrt(a: i64) -> (r: i64)
    ensures
        r == fx_cbrt_spec(a),
        0 <= r < 0x400_0000_0000,
{
    if a <= 0 {
        return 0;
    }
    let wide: u128 = a as u128;
    assert(wide * 1_000_000_000 * 1_000_000_000 <= 0x7fff_ffff_ffff_ffff * 1_000_000_000
        * 1_000_000_000) by (nonlinear_arith)
        requires
            wide <= 0x7fff_ffff_ffff_ffff,
    ;
    let n: u128 = wide * 1_000_000_000u128 * 1_000_000_000u128;
    let root: u64 = int_cbrt(n);
    proof {
        assert(root < 0x400_0000_0000) by {
            if root >= 0x400_0000_0000 {
                assert(root as int * root as int * root as int >= 0x400_0000_0000int
                    * 0x400_0000_0000int * 0x400_0000_0000int) by (nonlinear_arith)
                    requires
                        root >= 0x400_0000_0000,
                ;
            }
        }
        assert(a as int * SCALE * SCALE == n as int);
    }
    root as i64
}

} // verus!
