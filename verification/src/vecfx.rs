//! Vectors of fixed-point scalars: elementwise maps and range folds.
//!
//! The spec functions here are the vocabulary every pass contract is written
//! in: left folds over a coordinate range `[l, r)` and elementwise maps, all
//! over the scalar semantics of `fx`.

use crate::fx::{
    fadd_s, fdiv_s, fmax_s, fmin_s, fmul_s, fneg_s, fsub_s, fx_add, fx_div, fx_max, fx_min,
    fx_mul, fx_neg, fx_sub, FX_ONE, MAX_FIN, NEG_INF,
};
use vstd::prelude::*;

verus! {

/// `fadd_s` on `i64` values.
pub open spec fn fadd64(a: i64, b: i64) -> i64 {
    fadd_s(a as int, b as int) as i64
}

/// `fsub_s` on `i64` values.
pub open spec fn fsub64(a: i64, b: i64) -> i64 {
    fsub_s(a as int, b as int) as i64
}

/// `fneg_s` on `i64` values.
pub open spec fn fneg64(a: i64) -> i64 {
    fneg_s(a as int) as i64
}

/// `fmul_s` on `i64` values.
pub open spec fn fmul64(a: i64, b: i64) -> i64 {
    fmul_s(a as int, b as int) as i64
}

/// `fdiv_s` on `i64` values.
pub open spec fn fdiv64(a: i64, b: i64) -> i64 {
    fdiv_s(a as int, b as int) as i64
}

/// `fmin_s` on `i64` values.
pub open spec fn fmin64(a: i64, b: i64) -> i64 {
    fmin_s(a as int, b as int) as i64
}

/// `fmax_s` on `i64` values.
pub open spec fn fmax64(a: i64, b: i64) -> i64 {
    fmax_s(a as int, b as int) as i64
}

/// Minimum of `x[l..r]`, starting from `MAX_FIN`.
pub open spec fn range_min_s(x: Seq<i64>, l: int, r: int) -> i64
    decreases r - l,
{
    if l >= r {
        MAX_FIN
    } else {
        fmin64(range_min_s(x, l, r - 1), x[r - 1])
    }
}

/// Maximum of `x[l..r]`, starting from `NEG_INF`.
pub open spec fn range_max_s(x: Seq<i64>, l: int, r: int) -> i64
    decreases r - l,
{
    if l >= r {
        NEG_INF
    } else {
        fmax64(range_max_s(x, l, r - 1), x[r - 1])
    }
}

/// Saturating sum of `x[l..r]`, folded left from zero.
pub open spec fn range_sum_s(x: Seq<i64>, l: int, r: int) -> i64
    decreases r - l,
{
    if l >= r {
        0
    } else {
        fadd64(range_sum_s(x, l, r - 1), x[r - 1])
    }
}

/// Saturating sum of `x[j] * z[j]` over `j` in `[l, r)`, folded left from
/// zero.
pub open spec fn range_dot_s(x: Seq<i64>, z: Seq<i64>, l: int, r: int) -> i64
    decreases r - l,
{
    if l >= r {
        0
    } else {
        fadd64(range_dot_s(x, z, l, r - 1), fmul64(x[r - 1], z[r - 1]))
    }
}

/// Computes the minimum of `x[l..r]`.
pub fn range_min(x: &Vec<i64>, l: usize, r: usize) -> (m: i64)
    requires
        l <= r <= x@.len(),
    ensures
        m == range_min_s(x@, l as int, r as int),
{
    let mut m: i64 = MAX_FIN;
    let mut j: usize = l;
    while j < r
        invariant
            l <= j <= r <= x@.len(),
            m == range_min_s(x@, l as int, j as int),
        decreases r - j,
    {
        m = fx_min(m, x[j]);
        j = j + 1;
    }
    m
}

/// Computes the maximum of `x[l..r]`.
pub fn range_max(x: &Vec<i64>, l: usize, r: usize) -> (m: i64)
    requires
        l <= r <= x@.len(),
    ensures
        m == range_max_s(x@, l as int, r as int),
{
    let mut m: i64 = NEG_INF;
    let mut j: usize = l;
    while j < r
        invariant
            l <= j <= r <= x@.len(),
            m == range_max_s(x@, l as int, j as int),
        decreases r - j,
    {
        m = fx_max(m, x[j]);
        j = j + 1;
    }
    m
}

/// Computes the saturating sum of `x[l..r]`.
pub fn range_sum(x: &Vec<i64>, l: usize, r: usize) -> (s: i64)
    requires
        l <= r <= x@.len(),
    ensures
        s == range_sum_s(x@, l as int, r as int),
{
    let mut s: i64 = 0;
    let mut j: usize = l;
    while j < r
        invariant
            l <= j <= r <= x@.len(),
            s == range_sum_s(x@, l as int, j as int),
        decreases r - j,
    {
        s = fx_add(s, x[j]);
        j = j + 1;
    }
    s
}

/// Computes the saturating sum of `x[j] * z[j]` over `[l, r)`.
pub fn range_dot(x: &Vec<i64>, z: &Vec<i64>, l: usize, r: usize) -> (s: i64)
    requires
        l <= r <= x@.len(),
        r <= z@.len(),
    ensures
        s == range_dot_s(x@, z@, l as int, r as int),
{
    let mut s: i64 = 0;
    let mut j: usize = l;
    while j < r
        invariant
            l <= j <= r <= x@.len(),
            r <= z@.len(),
            s == range_dot_s(x@, z@, l as int, j as int),
        decreases r - j,
    {
        s = fx_add(s, fx_mul(x[j], z[j]));
        j = j + 1;
    }
    s
}

/// A saturating sum of nonnegative scalars is nonnegative.
pub proof fn lemma_range_sum_nonneg(x: Seq<i64>, l: int, r: int)
    requires
        forall|t: int| l <= t < r ==> x[t] >= 0,
    ensures
        range_sum_s(x, l, r) >= 0,
    decreases r - l,
{
    if l < r {
        lemma_range_sum_nonneg(x, l, r - 1);
    }
}

/// The range maximum is at least every element of the range.
pub proof fn lemma_range_max_ge(x: Seq<i64>, l: int, r: int, t: int)
    requires
        l <= t < r,
    ensures
        x[t] <= range_max_s(x, l, r),
    decreases r - l,
{
    if t < r - 1 {
        lemma_range_max_ge(x, l, r - 1, t);
    }
}

/// Every coordinate divided by `b`.
pub open spec fn map_div_s(x: Seq<i64>, b: i64) -> Seq<i64> {
    Seq::new(x.len(), |j: int| fdiv64(x[j], b))
}

/// Every coordinate negated, then divided by `b`; this is division by the
/// negated divisor.
pub open spec fn map_neg_div_s(x: Seq<i64>, b: i64) -> Seq<i64> {
    Seq::new(x.len(), |j: int| fdiv64(fneg64(x[j]), b))
}

/// Elementwise saturating difference.
pub open spec fn map_sub_s(x: Seq<i64>, y: Seq<i64>) -> Seq<i64> {
    Seq::new(x.len(), |j: int| fsub64(x[j], y[j]))
}

/// Elementwise saturating sum.
pub open spec fn map_add_s(x: Seq<i64>, y: Seq<i64>) -> Seq<i64> {
    Seq::new(x.len(), |j: int| fadd64(x[j], y[j]))
}

/// Every coordinate multiplied by the scalar `c`.
pub open spec fn map_mul_s(x: Seq<i64>, c: i64) -> Seq<i64> {
    Seq::new(x.len(), |j: int| fmul64(c, x[j]))
}

/// Every coordinate clamped below at zero.
pub open spec fn map_clamp0_s(x: Seq<i64>) -> Seq<i64> {
    Seq::new(x.len(), |j: int| fmax64(x[j], 0))
}

/// Convex interpolation `(1 - tau) * x + tau * y`, coordinate by coordinate.
pub open spec fn map_interp_s(x: Seq<i64>, y: Seq<i64>, tau: i64) -> Seq<i64> {
    Seq::new(x.len(), |j: int| fadd64(fmul64(fsub64(FX_ONE, tau), x[j]), fmul64(tau, y[j])))
}

pub fn vec_div(x: &Vec<i64>, b: i64) -> (r: Vec<i64>)
    requires
        b >= 0,
    ensures
        r@ == map_div_s(x@, b),
{
    let mut r: Vec<i64> = Vec::new();
    let mut j: usize = 0;
    while j < x.len()
        invariant
            j <= x@.len(),
            r@.len() == j,
            forall|i: int| 0 <= i < j ==> r@[i] == fdiv64(x@[i], b),
            b >= 0,
        decreases x@.len() - j,
    {
        r.push(fx_div(x[j], b));
        j = j + 1;
    }
    proof {
        assert(r@ =~= map_div_s(x@, b));
    }
    r
}

pub fn vec_neg_div(x: &Vec<i64>, b: i64) -> (r: Vec<i64>)
    requires
        b >= 0,
    ensures
        r@ == map_neg_div_s(x@, b),
{
    let mut r: Vec<i64> = Vec::new();
    let mut j: usize = 0;
    while j < x.len()
        invariant
            j <= x@.len(),
            r@.len() == j,
            forall|i: int| 0 <= i < j ==> r@[i] == fdiv64(fneg64(x@[i]), b),
            b >= 0,
        decreases x@.len() - j,
    {
        r.push(fx_div(fx_neg(x[j]), b));
        j = j + 1;
    }
    proof {
        assert(r@ =~= map_neg_div_s(x@, b));
    }
    r
}

pub fn vec_sub(x: &Vec<i64>, y: &Vec<i64>) -> (r: Vec<i64>)
    requires
        x@.len() == y@.len(),
    ensures
        r@ == map_sub_s(x@, y@),
{
    let mut r: Vec<i64> = Vec::new();
    let mut j: usize = 0;
    while j < x.len()
        invariant
            j <= x@.len(),
            x@.len() == y@.len(),
            r@.len() == j,
            forall|i: int| 0 <= i < j ==> r@[i] == fsub64(x@[i], y@[i]),
        decreases x@.len() - j,
    {
        r.push(fx_sub(x[j], y[j]));
        j = j + 1;
    }
    proof {
        assert(r@ =~= map_sub_s(x@, y@));
    }
    r
}

pub fn vec_add(x: &Vec<i64>, y: &Vec<i64>) -> (r: Vec<i64>)
    requires
        x@.len() == y@.len(),
    ensures
        r@ == map_add_s(x@, y@),
{
    let mut r: Vec<i64> = Vec::new();
    let mut j: usize = 0;
    while j < x.len()
        invariant
            j <= x@.len(),
            x@.len() == y@.len(),
            r@.len() == j,
            forall|i: int| 0 <= i < j ==> r@[i] == fadd64(x@[i], y@[i]),
        decreases x@.len() - j,
    {
        r.push(fx_add(x[j], y[j]));
        j = j + 1;
    }
    proof {
        assert(r@ =~= map_add_s(x@, y@));
    }
    r
}

pub fn vec_mul(x: &Vec<i64>, c: i64) -> (r: Vec<i64>)
    ensures
        r@ == map_mul_s(x@, c),
{
    let mut r: Vec<i64> = Vec::new();
    let mut j: usize = 0;
    while j < x.len()
        invariant
            j <= x@.len(),
            r@.len() == j,
            forall|i: int| 0 <= i < j ==> r@[i] == fmul64(c, x@[i]),
        decreases x@.len() - j,
    {
        r.push(fx_mul(c, x[j]));
        j = j + 1;
    }
    proof {
        assert(r@ =~= map_mul_s(x@, c));
    }
    r
}

pub fn vec_clamp0(x: &Vec<i64>) -> (r: Vec<i64>)
    ensures
        r@ == map_clamp0_s(x@),
        forall|i: int| 0 <= i < r@.len() ==> r@[i] >= 0,
{
    let mut r: Vec<i64> = Vec::new();
    let mut j: usize = 0;
    while j < x.len()
        invariant
            j <= x@.len(),
            r@.len() == j,
            forall|i: int| 0 <= i < j ==> r@[i] == fmax64(x@[i], 0) && r@[i] >= 0,
        decreases x@.len() - j,
    {
        r.push(fx_max(x[j], 0));
        j = j + 1;
    }
    proof {
        assert(r@ =~= map_clamp0_s(x@));
    }
    r
}

pub fn vec_interp(x: &Vec<i64>, y: &Vec<i64>, tau: i64) -> (r: Vec<i64>)
    requires
        x@.len() == y@.len(),
    ensures
        r@ == map_interp_s(x@, y@, tau),
{
    let omt: i64 = fx_sub(FX_ONE, tau);
    let mut r: Vec<i64> = Vec::new();
    let mut j: usize = 0;
    while j < x.len()
        invariant
            j <= x@.len(),
            x@.len() == y@.len(),
            r@.len() == j,
            omt == fsub64(FX_ONE, tau),
            forall|i: int|
                0 <= i < j ==> r@[i] == fadd64(fmul64(fsub64(FX_ONE, tau), x@[i]), fmul64(tau, y@[i])),
        decreases x@.len() - j,
    {
        r.push(fx_add(fx_mul(omt, x[j]), fx_mul(tau, y[j])));
        j = j + 1;
    }
    proof {
        assert(r@ =~= map_interp_s(x@, y@, tau));
    }
    r
}

/// Every coordinate negated.
pub open spec fn map_neg_s(x: Seq<i64>) -> Seq<i64> {
    Seq::new(x.len(), |j: int| fneg64(x[j]))
}

pub fn vec_neg(x: &Vec<i64>) -> (r: Vec<i64>)
    ensures
        r@ == map_neg_s(x@),
{
    let mut r: Vec<i64> = Vec::new();
    let mut j: usize = 0;
    while j < x.len()
        invariant
            j <= x@.len(),
            r@.len() == j,
            forall|i: int| 0 <= i < j ==> r@[i] == fneg64(x@[i]),
        decreases x@.len() - j,
    {
        r.push(fx_neg(x[j]));
        j = j + 1;
    }
    proof {
        assert(r@ =~= map_neg_s(x@));
    }
    r
}

/// A fresh vector with the same scalars.
pub fn vec_copy(x: &Vec<i64>) -> (r: Vec<i64>)
    ensures
        r@ == x@,
{
    let mut r: Vec<i64> = Vec::new();
    let mut j: usize = 0;
    while j < x.len()
        invariant
            j <= x@.len(),
            r@.len() == j,
            forall|i: int| 0 <= i < j ==> r@[i] == x@[i],
        decreases x@.len() - j,
    {
        r.push(x[j]);
        j = j + 1;
    }
    proof {
        assert(r@ =~= x@);
    }
    r
}

/// A fresh vector with the same indices.
pub fn vec_copy_usize(x: &Vec<usize>) -> (r: Vec<usize>)
    ensures
        r@ == x@,
{
    let mut r: Vec<usize> = Vec::new();
    let mut j: usize = 0;
    while j < x.len()
        invariant
            j <= x@.len(),
            r@.len() == j,
            forall|i: int| 0 <= i < j ==> r@[i] == x@[i],
        decreases x@.len() - j,
    {
        r.push(x[j]);
        j = j + 1;
    }
    proof {
        assert(r@ =~= x@);
    }
    r
}

/// Saturating dot product of two whole vectors.
pub open spec fn dot_s(x: Seq<i64>, y: Seq<i64>) -> i64 {
    range_dot_s(x, y, 0, x.len() as int)
}

pub fn vec_dot(x: &Vec<i64>, y: &Vec<i64>) -> (s: i64)
    requires
        x@.len() == y@.len(),
    ensures
        s == dot_s(x@, y@),
{
    range_dot(x, y, 0, x.len())
}

/// A vector of `n` zero scalars.
pub open spec fn zeros_s(n: int) -> Seq<i64> {
    Seq::new(n as nat, |j: int| 0i64)
}

pub fn vec_zeros(n: usize) -> (r: Vec<i64>)
    ensures
        r@ == zeros_s(n as int),
{
    let mut r: Vec<i64> = Vec::new();
    let mut j: usize = 0;
    while j < n
        invariant
            j <= n,
            r@.len() == j,
            forall|i: int| 0 <= i < j ==> r@[i] == 0i64,
        decreases n - j,
    {
        r.push(0);
        j = j + 1;
    }
    proof {
        assert(r@ =~= zeros_s(n as int));
    }
    r
}

} // verus!
