//! Q32.32 fixed-point scalars.
//!
//! A scalar is an `i64` holding `round(value * 2^32)`. The pattern
//! `i64::MIN` is reserved as a negative-infinity sentinel `NEG_INF`; every
//! other pattern is a finite value in `[MIN_FIN, MAX_FIN]`. Operations
//! saturate into the finite range and round toward negative infinity
//! (floor rounding). `NEG_INF` is absorbing for addition, multiplication
//! and division; negating it saturates to `MAX_FIN`.

use vstd::prelude::*;

verus! {

/// Number of fixed-point units per 1.0.
pub const SCALE: i64 = 0x1_0000_0000;

/// The fixed-point representation of 1.0.
pub const FX_ONE: i64 = 0x1_0000_0000;

/// Sentinel standing for negative infinity.
pub const NEG_INF: i64 = i64::MIN;

/// Largest finite scalar.
pub const MAX_FIN: i64 = i64::MAX;

/// Smallest finite scalar.
pub const MIN_FIN: i64 = -i64::MAX;

/// Clamp a mathematical integer into the finite scalar range.
pub open spec fn sat_s(v: int) -> int {
    if v > MAX_FIN as int {
        MAX_FIN as int
    } else if v < MIN_FIN as int {
        MIN_FIN as int
    } else {
        v
    }
}

/// Saturating fixed-point addition; `NEG_INF` is absorbing.
pub open spec fn fadd_s(a: int, b: int) -> int {
    if a == NEG_INF as int || b == NEG_INF as int {
        NEG_INF as int
    } else {
        sat_s(a + b)
    }
}

/// Fixed-point negation; negated `NEG_INF` saturates to `MAX_FIN`.
pub open spec fn fneg_s(a: int) -> int {
    if a == NEG_INF as int {
        MAX_FIN as int
    } else {
        -a
    }
}

/// Fixed-point subtraction, defined as addition of the negation.
pub open spec fn fsub_s(a: int, b: int) -> int {
    fadd_s(a, fneg_s(b))
}

/// Saturating fixed-point multiplication with floor rounding;
/// `NEG_INF` is absorbing.
pub open spec fn fmul_s(a: int, b: int) -> int {
    if a == NEG_INF as int || b == NEG_INF as int {
        NEG_INF as int
    } else {
        sat_s((a * b) / (SCALE as int))
    }
}

/// Saturating fixed-point division by a nonnegative divisor with floor
/// rounding. Division by zero saturates to the signed infinity of the
/// numerator; `NEG_INF` is absorbing.
pub open spec fn fdiv_s(a: int, b: int) -> int {
    if a == NEG_INF as int {
        NEG_INF as int
    } else if b == 0 {
        if a > 0 {
            MAX_FIN as int
        } else if a < 0 {
            MIN_FIN as int
        } else {
            0
        }
    } else {
        sat_s((a * SCALE as int) / b)
    }
}

/// Minimum under the plain signed order (`NEG_INF` is the least scalar).
pub open spec fn fmin_s(a: int, b: int) -> int {
    if a < b {
        a
    } else {
        b
    }
}

/// Maximum under the plain signed order.
pub open spec fn fmax_s(a: int, b: int) -> int {
    if a < b {
        b
    } else {
        a
    }
}

pub fn fx_add(a: i64, b: i64) -> (r: i64)
    ensures
        r == fadd_s(a as int, b as int),
{
    if a == NEG_INF || b == NEG_INF {
        NEG_INF
    } else {
        let s: i128 = a as i128 + b as i128;
        if s > MAX_FIN as i128 {
            MAX_FIN
        } else if s < MIN_FIN as i128 {
            MIN_FIN
        } else {
            s as i64
        }
    }
}

pub fn fx_neg(a: i64) -> (r: i64)
    ensures
        r == fneg_s(a as int),
{
    if a == NEG_INF {
        MAX_FIN
    } else {
        -a
    }
}

pub fn fx_sub(a: i64, b: i64) -> (r: i64)
    ensures
        r == fsub_s(a as int, b as int),
{
    fx_add(a, fx_neg(b))
}

pub fn fx_mul(a: i64, b: i64) -> (r: i64)
    ensures
        r == fmul_s(a as int, b as int),
{
    if a == NEG_INF || b == NEG_INF {
        NEG_INF
    } else {
        proof {
            assert((a as i128) * (b as i128) == a as int * b as int) by (nonlinear_arith);
            assert(a as int * b as int <= i128::MAX && a as int * b as int >= i128::MIN)
                by (nonlinear_arith)
                requires
                    -i64::MAX <= a <= i64::MAX,
                    -i64::MAX <= b <= i64::MAX,
            ;
        }
        let p: i128 = (a as i128) * (b as i128);
        let q_opt = p.checked_div_euclid(SCALE as i128);
        match q_opt {
            Some(q) => {
                if q > MAX_FIN as i128 {
                    MAX_FIN
                } else if q < MIN_FIN as i128 {
                    MIN_FIN
                } else {
                    q as i64
                }
            },
            None => {
                proof {
                    assert(false);
                }
                NEG_INF
            },
        }
    }
}

pub fn fx_div(a: i64, b: i64) -> (r: i64)
    requires
        b >= 0,
    ensures
        r == fdiv_s(a as int, b as int),
{
    if a == NEG_INF {
        NEG_INF
    } else if b == 0 {
        if a > 0 {
            MAX_FIN
        } else if a < 0 {
            MIN_FIN
        } else {
            0
        }
    } else {
        proof {
            assert((a as i128) * (SCALE as i128) == a as int * SCALE as int) by (nonlinear_arith);
            assert(a as int * SCALE as int <= i128::MAX && a as int * SCALE as int >= i128::MIN)
                by (nonlinear_arith)
                requires
                    -i64::MAX <= a <= i64::MAX,
            ;
        }
        let num: i128 = (a as i128) * (SCALE as i128);
        proof {
            assert(num as int >= 0 ==> (0 <= num as int / (b as int) <= num as int))
                by (nonlinear_arith)
                requires
                    b >= 1,
            ;
            assert((num as int) < 0 ==> (num as int <= num as int / (b as int) <= 0))
                by (nonlinear_arith)
                requires
                    b >= 1,
            ;
        }
        let q_opt = num.checked_div_euclid(b as i128);
        match q_opt {
            Some(q) => {
                if q > MAX_FIN as i128 {
                    MAX_FIN
                } else if q < MIN_FIN as i128 {
                    MIN_FIN
                } else {
                    q as i64
                }
            },
            None => {
                proof {
                    assert(false);
                }
                NEG_INF
            },
        }
    }
}

/// The fixed-point value of the plain integer `m`.
pub open spec fn fxint_s(m: int) -> int {
    m * SCALE
}

/// Converts a small nonnegative integer count into a fixed-point scalar.
pub fn fx_from_usize(m: usize) -> (r: i64)
    requires
        m <= 0x7FFF_FFFF,
    ensures
        r == fxint_s(m as int),
{
    (m as i64) * SCALE
}

/// The product of nonnegative scalars is a nonnegative finite scalar.
pub proof fn lemma_fmul_nonneg(a: int, b: int)
    requires
        0 <= a,
        0 <= b,
    ensures
        0 <= fmul_s(a, b) <= MAX_FIN as int,
{
    assert(a * b >= 0) by (nonlinear_arith)
        requires
            a >= 0,
            b >= 0,
    ;
    assert((a * b) / (SCALE as int) >= 0) by (nonlinear_arith)
        requires
            a * b >= 0,
            SCALE >= 1,
    ;
}

/// `ln(2)` in Q32.32 units.
pub const LN2_FX: i64 = 2977044472;

/// Arguments at or below `-EXP_CUT` make `fx_exp_neg` underflow to zero.
pub const EXP_CUT: i64 = 0x17_0000_0000;

/// Number of Horner steps in the exponential series.
pub const EXP_TERMS: u64 = 12;

/// Number of terms in the logarithm series.
pub const LN_TERMS: u64 = 10;

/// Horner accumulator for `exp(-r)` after `j` of the steps, innermost first:
/// step number `j` uses divisor `EXP_TERMS + 1 - j`.
pub open spec fn exp_acc(r: int, j: nat) -> int
    decreases j,
{
    if j == 0 {
        SCALE as int
    } else {
        SCALE - (r * exp_acc(r, (j - 1) as nat)) / (SCALE * (EXP_TERMS + 1 - j))
    }
}

/// `x` halved (flooring) `k` times over.
pub open spec fn half_k(x: int, k: nat) -> int
    decreases k,
{
    if k == 0 {
        x
    } else {
        half_k(x / 2, (k - 1) as nat)
    }
}

/// Fixed-point `exp(t)` for nonpositive `t`: range-reduce by `ln 2`, run the
/// Horner series on the fractional part, then halve once per whole power.
pub open spec fn fexp_s(t: int) -> int
    recommends
        t <= 0,
{
    if t <= -(EXP_CUT as int) {
        0
    } else {
        let tt = -t;
        half_k(exp_acc(tt % (LN2_FX as int), EXP_TERMS as nat), (tt / (LN2_FX as int)) as nat)
    }
}

proof fn lemma_exp_acc_bounds(r: int, j: nat)
    requires
        0 <= r < SCALE,
        j <= EXP_TERMS,
    ensures
        0 <= exp_acc(r, j) <= SCALE,
    decreases j,
{
    if j > 0 {
        lemma_exp_acc_bounds(r, (j - 1) as nat);
        let prev = exp_acc(r, (j - 1) as nat);
        let d = SCALE * (EXP_TERMS + 1 - j);
        assert(0 <= (r * prev) / d <= SCALE) by (nonlinear_arith)
            requires
                0 <= r < SCALE,
                0 <= prev <= SCALE,
                d >= SCALE,
                SCALE > 0,
        ;
    }
}

proof fn lemma_exp_acc_zero(j: nat)
    requires
        j <= EXP_TERMS,
    ensures
        exp_acc(0, j) == SCALE as int,
    decreases j,
{
    if j > 0 {
        lemma_exp_acc_zero((j - 1) as nat);
        let d = SCALE * (EXP_TERMS + 1 - j);
        assert(d >= SCALE) by (nonlinear_arith)
            requires
                d == SCALE * (EXP_TERMS + 1 - j),
                1 <= EXP_TERMS + 1 - j,
                SCALE > 0,
        ;
        assert(0int / d == 0) by (nonlinear_arith)
            requires
                d >= 1,
        ;
    }
}

proof fn lemma_half_k_bounds(x: int, k: nat)
    requires
        0 <= x,
    ensures
        0 <= half_k(x, k) <= x,
    decreases k,
{
    if k > 0 {
        lemma_half_k_bounds(x / 2, (k - 1) as nat);
    }
}

pub fn fx_exp_neg(t: i64) -> (r: i64)
    requires
        t <= 0,
    ensures
        r == fexp_s(t as int),
        0 <= r <= FX_ONE,
        t == 0 ==> r == FX_ONE,
{
    if t <= -EXP_CUT {
        return 0;
    }
    let tt: u64 = (-t) as u64;
    let k: u64 = tt / (LN2_FX as u64);
    let rr: u64 = tt % (LN2_FX as u64);
    proof {
        assert(tt as int == -(t as int));
        assert(k as int == tt as int / (LN2_FX as int) && rr as int == tt as int % (LN2_FX as int));
        assert(k <= 33) by (nonlinear_arith)
            requires
                k as int == tt as int / (LN2_FX as int),
                0 <= tt < EXP_CUT,
                EXP_CUT == 0x17_0000_0000,
                LN2_FX == 2977044472,
        ;
    }
    let mut acc: u64 = SCALE as u64;
    let mut i: u64 = EXP_TERMS;
    proof {
        lemma_exp_acc_bounds(rr as int, 0);
    }
    while i >= 1
        invariant
            i <= EXP_TERMS,
            0 <= rr < SCALE,
            0 <= acc <= SCALE as u64,
            acc as int == exp_acc(rr as int, (EXP_TERMS - i) as nat),
        decreases i,
    {
        let d: u64 = (SCALE as u64) * i;
        proof {
            assert((rr as int) * (acc as int) <= 0x1_0000_0000_0000_0000) by (nonlinear_arith)
                requires
                    0 <= (rr as int) < 0x1_0000_0000,
                    0 <= (acc as int) <= 0x1_0000_0000,
            ;
            assert((rr as int) * (acc as int) <= SCALE * SCALE) by (nonlinear_arith)
                requires
                    0 <= (rr as int) < SCALE,
                    0 <= (acc as int) <= SCALE,
            ;
            assert(0 <= (rr as int * acc as int) / (d as int) <= SCALE as int) by (nonlinear_arith)
                requires
                    0 <= (rr as int),
                    0 <= (acc as int) <= SCALE,
                    d as int >= SCALE,
                    SCALE > 0,
                    rr as int * acc as int <= SCALE * SCALE,
            ;
        }
        let term_wide: u128 = (rr as u128) * (acc as u128) / (d as u128);
        let term: u64 = term_wide as u64;
        acc = (SCALE as u64) - term;
        i = i - 1;
    }
    let mut e: u64 = acc;
    let mut j: u64 = k;
    while j >= 1
        invariant
            0 <= e <= SCALE as u64,
            half_k(e as int, j as nat) == half_k(acc as int, k as nat),
        decreases j,
    {
        e = e / 2;
        j = j - 1;
    }
    proof {
        lemma_half_k_bounds(acc as int, k as nat);
        if t == 0 {
            lemma_exp_acc_zero(EXP_TERMS as nat);
        }
    }
    e as i64
}

/// Doublings needed to bring a positive value up to at least `SCALE`.
pub open spec fn up_cnt(m: int) -> nat
    recommends
        m > 0,
    decreases 2 * SCALE - m,
{
    if m >= SCALE || m <= 0 {
        0
    } else {
        1 + up_cnt(2 * m)
    }
}

/// The value after those doublings.
pub open spec fn up_val(m: int) -> int
    recommends
        m > 0,
    decreases 2 * SCALE - m,
{
    if m >= SCALE || m <= 0 {
        m
    } else {
        up_val(2 * m)
    }
}

/// Halvings needed to bring a value down below `2 * SCALE`.
pub open spec fn down_cnt(m: int) -> nat
    decreases m,
{
    if m < 2 * SCALE {
        0
    } else {
        1 + down_cnt(m / 2)
    }
}

/// The value after those halvings.
pub open spec fn down_val(m: int) -> int
    decreases m,
{
    if m < 2 * SCALE {
        m
    } else {
        down_val(m / 2)
    }
}

/// `j`-th term of the inverse-hyperbolic-tangent series (odd powers of `u`).
pub open spec fn ln_term(u: int, usq: int, j: nat) -> int
    decreases j,
{
    if j <= 1 {
        u
    } else {
        (ln_term(u, usq, (j - 1) as nat) * usq) / (SCALE as int)
    }
}

/// Partial series sum `u + u^3/3 + ... ` up to `j` terms.
pub open spec fn ln_sum(u: int, usq: int, j: nat) -> int
    decreases j,
{
    if j == 0 {
        0
    } else {
        ln_sum(u, usq, (j - 1) as nat) + ln_term(u, usq, j) / (2 * j - 1)
    }
}

/// `ln m` for a mantissa `m` in `[SCALE, 2 * SCALE)`, via
/// `2 * atanh((m - 1) / (m + 1))`.
pub open spec fn ln_mant(m: int) -> int
    recommends
        SCALE <= m < 2 * SCALE,
{
    let u = ((m - SCALE) * SCALE) / (m + SCALE);
    let usq = (u * u) / (SCALE as int);
    2 * ln_sum(u, usq, LN_TERMS as nat)
}

/// Fixed-point natural logarithm: `NEG_INF` at or below zero, otherwise
/// normalize to a mantissa in `[1, 2)` and add the matching multiple of
/// `ln 2`.
pub open spec fn fln_s(x: int) -> int {
    if x <= 0 {
        NEG_INF as int
    } else if x < SCALE {
        ln_mant(up_val(x)) - up_cnt(x) * LN2_FX
    } else {
        ln_mant(down_val(x)) + down_cnt(x) * LN2_FX
    }
}

proof fn lemma_up_cnt_le(m: int, n: nat)
    requires
        0 < m,
        SCALE <= m * vstd::arithmetic::power2::pow2(n),
    ensures
        up_cnt(m) <= n,
    decreases 2 * SCALE - m,
{
    if m < SCALE {
        if n == 0 {
            assert(vstd::arithmetic::power2::pow2(0) == 1) by {
                vstd::arithmetic::power2::lemma2_to64();
            }
            assert(m * vstd::arithmetic::power2::pow2(n) == m) by (nonlinear_arith)
                requires
                    n == 0,
                    vstd::arithmetic::power2::pow2(0) == 1,
            ;
            assert(false);
        } else {
            assert(2 * m * vstd::arithmetic::power2::pow2((n - 1) as nat) == m
                * vstd::arithmetic::power2::pow2(n)) by {
                vstd::arithmetic::power2::lemma_pow2_unfold(n);
                assert(2 * m * vstd::arithmetic::power2::pow2((n - 1) as nat) == m * (2
                    * vstd::arithmetic::power2::pow2((n - 1) as nat))) by (nonlinear_arith);
            }
            lemma_up_cnt_le(2 * m, (n - 1) as nat);
            assert(up_cnt(2 * m) <= n - 1);
            assert(up_cnt(m) == 1 + up_cnt(2 * m));
        }
    }
}

proof fn lemma_down_cnt_le(m: int, n: nat)
    requires
        m < 2 * SCALE * vstd::arithmetic::power2::pow2(n),
    ensures
        down_cnt(m) <= n,
    decreases m,
{
    if m >= 2 * SCALE {
        assert(n >= 1) by {
            if n == 0 {
                vstd::arithmetic::power2::lemma2_to64();
            }
        }
        assert(m / 2 < 2 * SCALE * vstd::arithmetic::power2::pow2((n - 1) as nat)) by {
            vstd::arithmetic::power2::lemma_pow2_unfold(n);
            assert(2 * SCALE * (2 * vstd::arithmetic::power2::pow2((n - 1) as nat)) == 2 * (2
                * SCALE * vstd::arithmetic::power2::pow2((n - 1) as nat))) by (nonlinear_arith);
        }
        lemma_down_cnt_le(m / 2, (n - 1) as nat);
    }
}

pub fn fx_min(a: i64, b: i64) -> (r: i64)
    ensures
        r == fmin_s(a as int, b as int),
{
    if a < b {
        a
    } else {
        b
    }
}

pub fn fx_max(a: i64, b: i64) -> (r: i64)
    ensures
        r == fmax_s(a as int, b as int),
{
    if a < b {
        b
    } else {
        a
    }
}

proof fn lemma_up_val_range(m: int)
    requires
        0 < m,
    ensures
        SCALE <= up_val(m) || m >= SCALE,
        m < 2 * SCALE ==> up_val(m) < 2 * SCALE,
        m >= SCALE ==> up_val(m) == m,
    decreases 2 * SCALE - m,
{
    if m < SCALE {
        lemma_up_val_range(2 * m);
    }
}

proof fn lemma_down_val_range(m: int)
    requires
        SCALE <= m,
    ensures
        SCALE <= down_val(m) < 2 * SCALE,
    decreases m,
{
    if m >= 2 * SCALE {
        lemma_down_val_range(m / 2);
    }
}

fn ln_mant_exec(m: u64) -> (r: i64)
    requires
        SCALE as u64 <= m < 2 * SCALE as u64,
    ensures
        r as int == ln_mant(m as int),
        0 <= r <= 20 * SCALE as int,
{
    proof {
        assert((m as int - SCALE) * SCALE <= SCALE * SCALE) by (nonlinear_arith)
            requires
                SCALE as int <= (m as int) < 2 * SCALE,
        ;
        assert(0 <= ((m as int - SCALE) * SCALE) / (m as int + SCALE) < SCALE)
            by (nonlinear_arith)
            requires
                SCALE as int <= (m as int) < 2 * SCALE,
                SCALE == 0x1_0000_0000,
        ;
    }
    let u_wide: u128 = ((m - SCALE as u64) as u128) * (SCALE as u128) / ((m + SCALE as u64)
        as u128);
    let u: u64 = u_wide as u64;
    proof {
        assert((u as int) * (u as int) <= SCALE * SCALE) by (nonlinear_arith)
            requires
                0 <= (u as int) < SCALE,
        ;
        assert(0 <= (u as int * u as int) / (SCALE as int) < SCALE) by (nonlinear_arith)
            requires
                0 <= (u as int) < SCALE,
                SCALE == 0x1_0000_0000,
        ;
    }
    let usq_wide: u128 = (u as u128) * (u as u128) / (SCALE as u128);
    let usq: u64 = usq_wide as u64;
    let mut term: u64 = u;
    let mut s: u64 = u;
    let mut j: u64 = 1;
    proof {
        assert(ln_sum(u as int, usq as int, 0) == 0);
        assert(ln_term(u as int, usq as int, 1) == u as int);
        assert((u as int) / 1int == u as int);
    }
    while j < LN_TERMS
        invariant
            1 <= j <= LN_TERMS,
            0 <= u < SCALE as u64,
            0 <= usq < SCALE as u64,
            term as int == ln_term(u as int, usq as int, j as nat),
            0 <= term <= u,
            s as int == ln_sum(u as int, usq as int, j as nat),
            s <= j * u,
        decreases LN_TERMS - j,
    {
        j = j + 1;
        proof {
            assert((term as int) * (usq as int) <= SCALE * SCALE) by (nonlinear_arith)
                requires
                    0 <= (term as int) < SCALE,
                    0 <= (usq as int) < SCALE,
            ;
            assert(0 <= (term as int * usq as int) / (SCALE as int) <= term as int)
                by (nonlinear_arith)
                requires
                    0 <= term,
                    0 <= (usq as int) < SCALE,
                    SCALE == 0x1_0000_0000,
            ;
        }
        let term_wide: u128 = (term as u128) * (usq as u128) / (SCALE as u128);
        term = term_wide as u64;
        proof {
            assert(term as int / (2 * (j as int) - 1) <= term as int) by (nonlinear_arith)
                requires
                    0 <= term,
                    2 * (j as int) - 1 >= 1,
            ;
            assert(s + term as int / (2 * (j as int) - 1) <= j * (u as int)) by (nonlinear_arith)
                requires
                    s <= (j as int - 1) * (u as int),
                    term as int / (2 * (j as int) - 1) <= term,
                    term <= u,
            ;
            assert(j * (u as int) <= 10 * SCALE) by (nonlinear_arith)
                requires
                    j <= 10,
                    0 <= (u as int) < SCALE,
            ;
        }
        s = s + term / (2 * j - 1);
    }
    proof {
        assert(s <= LN_TERMS * (u as int));
        assert(LN_TERMS * (u as int) <= 10 * SCALE) by (nonlinear_arith)
            requires
                0 <= (u as int) < SCALE,
                LN_TERMS == 10,
        ;
    }
    (2 * s) as i64
}

proof fn lemma_ln_series_bounds(u: int, usq: int, j: nat)
    requires
        0 <= u < SCALE,
        0 <= usq < SCALE,
    ensures
        0 <= ln_term(u, usq, j) <= u,
        0 <= ln_sum(u, usq, j) <= j * u,
    decreases j,
{
    if j > 0 {
        lemma_ln_series_bounds(u, usq, (j - 1) as nat);
        if j > 1 {
            assert(0 <= (ln_term(u, usq, (j - 1) as nat) * usq) / (SCALE as int) <= ln_term(
                u,
                usq,
                (j - 1) as nat,
            )) by (nonlinear_arith)
                requires
                    0 <= ln_term(u, usq, (j - 1) as nat),
                    0 <= usq < SCALE,
                    SCALE >= 1,
            ;
        }
        assert(0 <= ln_term(u, usq, j) / (2 * j - 1) <= ln_term(u, usq, j)) by (nonlinear_arith)
            requires
                ln_term(u, usq, j) >= 0,
                2 * j - 1 >= 1,
        ;
        assert(j * u == (j - 1) * u + u) by (nonlinear_arith);
    } else {
        assert(j * u == 0) by (nonlinear_arith)
            requires
                j == 0,
        ;
    }
}

proof fn lemma_ln_mant_bounds(m: int)
    requires
        SCALE <= m < 2 * SCALE,
    ensures
        0 <= ln_mant(m) <= 20 * SCALE,
{
    let u = ((m - SCALE) * SCALE) / (m + SCALE);
    assert(0 <= u < SCALE) by (nonlinear_arith)
        requires
            u == ((m - SCALE) * SCALE) / (m + SCALE),
            SCALE <= m < 2 * SCALE,
            SCALE >= 1,
    ;
    let usq = (u * u) / (SCALE as int);
    assert(0 <= usq < SCALE) by (nonlinear_arith)
        requires
            usq == (u * u) / (SCALE as int),
            0 <= u < SCALE,
            SCALE >= 1,
    ;
    lemma_ln_series_bounds(u, usq, LN_TERMS as nat);
    assert(ln_sum(u, usq, LN_TERMS as nat) <= 10 * SCALE) by (nonlinear_arith)
        requires
            ln_sum(u, usq, LN_TERMS as nat) <= (LN_TERMS as nat) * u,
            LN_TERMS == 10,
            0 <= u < SCALE,
    ;
}

/// The logarithm of a positive scalar is a finite scalar: bounded well
/// inside the representable range, never the `NEG_INF` sentinel.
pub proof fn lemma_fln_finite(x: int)
    requires
        1 <= x <= MAX_FIN,
    ensures
        (MIN_FIN as int) < fln_s(x) < (MAX_FIN as int),
        (NEG_INF as int) < fln_s(x),
{
    if x < SCALE {
        lemma_up_val_range(x);
        lemma_ln_mant_bounds(up_val(x));
        assert(vstd::arithmetic::power2::pow2(32) == 0x1_0000_0000) by {
            vstd::arithmetic::power2::lemma2_to64();
        }
        assert(SCALE <= x * vstd::arithmetic::power2::pow2(32)) by (nonlinear_arith)
            requires
                x >= 1,
                vstd::arithmetic::power2::pow2(32) == 0x1_0000_0000,
                SCALE == 0x1_0000_0000,
        ;
        lemma_up_cnt_le(x, 32);
        assert(0 <= up_cnt(x) * LN2_FX <= 32 * LN2_FX) by (nonlinear_arith)
            requires
                0 <= up_cnt(x) <= 32,
                LN2_FX >= 0,
        ;
    } else {
        lemma_down_val_range(x);
        lemma_ln_mant_bounds(down_val(x));
        assert(vstd::arithmetic::power2::pow2(30) == 0x4000_0000) by {
            vstd::arithmetic::power2::lemma2_to64();
        }
        assert(x < 2 * SCALE * vstd::arithmetic::power2::pow2(30)) by (nonlinear_arith)
            requires
                x <= MAX_FIN,
                vstd::arithmetic::power2::pow2(30) == 0x4000_0000,
                SCALE == 0x1_0000_0000,
                MAX_FIN == i64::MAX,
        ;
        lemma_down_cnt_le(x, 30);
        assert(0 <= down_cnt(x) * LN2_FX <= 30 * LN2_FX) by (nonlinear_arith)
            requires
                0 <= down_cnt(x) <= 30,
                LN2_FX >= 0,
        ;
    }
}

pub fn fx_ln(x: i64) -> (r: i64)
    ensures
        r == fln_s(x as int),
{
    if x <= 0 {
        return NEG_INF;
    }
    if x < SCALE {
        let mut m: u64 = x as u64;
        let mut cnt: u64 = 0;
        proof {
            vstd::arithmetic::power2::lemma2_to64();
            assert(SCALE <= m as int * vstd::arithmetic::power2::pow2(32)) by (nonlinear_arith)
                requires
                    m as int >= 1,
                    vstd::arithmetic::power2::pow2(32) == 0x1_0000_0000,
                    SCALE == 0x1_0000_0000,
            ;
            lemma_up_cnt_le(m as int, 32);
        }
        while m < SCALE as u64
            invariant
                0 < m < 2 * SCALE as u64,
                up_val(m as int) == up_val(x as int),
                cnt + up_cnt(m as int) == up_cnt(x as int),
                up_cnt(x as int) <= 32,
            decreases 2 * SCALE - m,
        {
            m = m * 2;
            cnt = cnt + 1;
        }
        proof {
            lemma_up_val_range(x as int);
        }
        let lm: i64 = ln_mant_exec(m);
        lm - (cnt as i64) * LN2_FX
    } else {
        let mut m: u64 = x as u64;
        let mut cnt: u64 = 0;
        proof {
            vstd::arithmetic::power2::lemma2_to64();
            assert((m as int) < 2 * SCALE * vstd::arithmetic::power2::pow2(30))
                by (nonlinear_arith)
                requires
                    m as int <= MAX_FIN,
                    vstd::arithmetic::power2::pow2(30) == 0x4000_0000,
                    SCALE == 0x1_0000_0000,
                    MAX_FIN == i64::MAX,
            ;
            lemma_down_cnt_le(m as int, 30);
        }
        while m >= 2 * SCALE as u64
            invariant
                SCALE as u64 <= m,
                down_val(m as int) == down_val(x as int),
                cnt + down_cnt(m as int) == down_cnt(x as int),
                down_cnt(x as int) <= 30,
            decreases m,
        {
            m = m / 2;
            cnt = cnt + 1;
        }
        proof {
            lemma_down_val_range(x as int);
        }
        let lm: i64 = ln_mant_exec(m);
        lm + (cnt as i64) * LN2_FX
    }
}

} // verus!
