//! Regret-matching solvers (CFR and CFR+) and the polytope passes they
//! share: top-down expansion, counterfactual regret accumulation, and
//! per-decision-point normalization.

use crate::fx::{fmul_s, fx_add, fx_div, fx_from_usize, fx_mul, fx_sub, fxint_s, FX_ONE, MAX_FIN, MIN_FIN, NEG_INF, SCALE};
use crate::game::{Game, StrategyPolytope};
use crate::vecfx::{
    fadd64, fdiv64, fmul64, fsub64, range_dot, range_dot_s, range_sum, range_sum_s, vec_add,
    vec_clamp0, vec_copy, vec_div, vec_mul, vec_neg, vec_zeros, map_add_s, map_clamp0_s,
    lemma_range_sum_nonneg, map_div_s, map_mul_s, map_neg_s, zeros_s,
};
use vstd::prelude::*;

verus! {

/// One step of the top-down expansion: multiply decision point `i`'s owned
/// range by the current value of its parent coordinate.
pub open spec fn expand_step_s(sp: StrategyPolytope, x: Seq<i64>, i: int) -> Seq<i64> {
    let l = sp.idx@[i] as int;
    let r = sp.idx@[i + 1] as int;
    let xp = x[sp.par@[i] as int];
    Seq::new(x.len(), |j: int| if l <= j < r {
        fmul64(x[j], xp)
    } else {
        x[j]
    })
}

/// The vector after coordinate 0 is pinned to one and decision points
/// `0 .. i` have been expanded, in forward order.
pub open spec fn expand_state_s(sp: StrategyPolytope, x0: Seq<i64>, i: int) -> Seq<i64>
    decreases i,
{
    if i <= 0 {
        x0.update(0, FX_ONE)
    } else {
        expand_step_s(sp, expand_state_s(sp, x0, i - 1), i - 1)
    }
}

/// The full expansion: local distributions to realization weights.
pub open spec fn expand_s(sp: StrategyPolytope, x0: Seq<i64>) -> Seq<i64> {
    expand_state_s(sp, x0, sp.k())
}

/// Converts a vector of local per-decision-point distributions into
/// realization weights: coordinate 0 is pinned to one and every owned range
/// is multiplied by its parent coordinate, top down.
pub fn prod(sp: &StrategyPolytope, x: Vec<i64>) -> (y: Vec<i64>)
    requires
        sp.wf(),
        x@.len() == sp.n(),
    ensures
        y@ == expand_s(*sp, x@),
        y@.len() == x@.len(),
{
    let mut x = x;
    let ghost x0 = x@;
    x.set(0, FX_ONE);
    let mut i: usize = 0;
    while i < sp.par.len()
        invariant
            sp.wf(),
            i <= sp.k(),
            x@.len() == sp.n(),
            x@ == expand_state_s(*sp, x0, i as int),
        decreases sp.k() - i,
    {
        let ghost pre = x@;
        let l: usize = sp.idx[i];
        let r: usize = sp.idx[i + 1];
        let xp: i64 = x[sp.par[i]];
        let mut j: usize = l;
        while j < r
            invariant
                l <= j <= r,
                r <= x@.len(),
                x@.len() == pre.len(),
                xp == pre[sp.par@[i as int] as int],
                l == sp.idx@[i as int] as int,
                r == sp.idx@[i as int + 1] as int,
                sp.par@[i as int] as int <= l,
                forall|t: int| 0 <= t < l ==> x@[t] == pre[t],
                forall|t: int| l <= t < j ==> x@[t] == fmul64(pre[t], xp),
                forall|t: int| j <= t < pre.len() ==> x@[t] == pre[t],
            decreases r - j,
        {
            let v: i64 = fx_mul(x[j], xp);
            x.set(j, v);
            j = j + 1;
        }
        proof {
            assert(x@ =~= expand_step_s(*sp, pre, i as int));
        }
        i = i + 1;
    }
    x
}

/// One step of the regret pass at decision point `i`: the expected utility
/// `avg` over the owned range under the local distribution `z` is credited
/// to the parent's utility, and each owned coordinate's regret grows by its
/// utility minus `avg`. Returns the updated `(util, regret)` pair.
pub open spec fn acc_step_s(
    sp: StrategyPolytope,
    z: Seq<i64>,
    u: Seq<i64>,
    g: Seq<i64>,
    i: int,
) -> (Seq<i64>, Seq<i64>) {
    let l = sp.idx@[i] as int;
    let r = sp.idx@[i + 1] as int;
    let p = sp.par@[i] as int;
    let avg = range_dot_s(u, z, l, r);
    let g2 = Seq::new(g.len(), |j: int| if l <= j < r {
        fadd64(g[j], fsub64(u[j], avg))
    } else {
        g[j]
    });
    let u2 = u.update(p, fadd64(u[p], avg));
    (u2, g2)
}

/// The `(util, regret)` pair after decision points `k - 1` down to `i` have
/// been folded, in reverse order.
pub open spec fn acc_state_s(
    sp: StrategyPolytope,
    z: Seq<i64>,
    u0: Seq<i64>,
    g0: Seq<i64>,
    i: int,
) -> (Seq<i64>, Seq<i64>)
    decreases sp.k() - i,
{
    if i >= sp.k() {
        (u0, g0)
    } else {
        let prev = acc_state_s(sp, z, u0, g0, i + 1);
        acc_step_s(sp, z, prev.0, prev.1, i)
    }
}

/// The regret vector after the full reverse pass.
pub open spec fn accumulate_s(
    sp: StrategyPolytope,
    z: Seq<i64>,
    u0: Seq<i64>,
    g0: Seq<i64>,
) -> Seq<i64> {
    acc_state_s(sp, z, u0, g0, 0).1
}

/// Accumulates counterfactual regrets: a reverse pass crediting each
/// decision point's expected utility to its parent and each action's
/// advantage over that expectation to its regret entry.
pub fn accumulate(sp: &StrategyPolytope, z: &Vec<i64>, util: Vec<i64>, regret: &mut Vec<i64>)
    requires
        sp.wf(),
        z@.len() == sp.n(),
        util@.len() == sp.n(),
        old(regret)@.len() == sp.n(),
    ensures
        final(regret)@ == accumulate_s(*sp, z@, util@, old(regret)@),
        final(regret)@.len() == old(regret)@.len(),
{
    let mut util = util;
    let ghost u0 = util@;
    let ghost g0 = regret@;
    let mut i: usize = sp.par.len();
    while i > 0
        invariant
            sp.wf(),
            i <= sp.k(),
            util@.len() == sp.n(),
            regret@.len() == sp.n(),
            z@.len() == sp.n(),
            util@ == acc_state_s(*sp, z@, u0, g0, i as int).0,
            regret@ == acc_state_s(*sp, z@, u0, g0, i as int).1,
        decreases i,
    {
        i = i - 1;
        let ghost pre_u = util@;
        let ghost pre_g = regret@;
        let l: usize = sp.idx[i];
        let r: usize = sp.idx[i + 1];
        let avg: i64 = range_dot(&util, z, l, r);
        let mut j: usize = l;
        while j < r
            invariant
                l <= j <= r,
                r <= regret@.len(),
                regret@.len() == pre_g.len(),
                util@ == pre_u,
                r <= util@.len(),
                forall|t: int| 0 <= t < l ==> regret@[t] == pre_g[t],
                forall|t: int| l <= t < j ==> regret@[t] == fadd64(pre_g[t], fsub64(pre_u[t], avg)),
                forall|t: int| j <= t < pre_g.len() ==> regret@[t] == pre_g[t],
            decreases r - j,
        {
            let v: i64 = fx_add(regret[j], fx_sub(util[j], avg));
            regret.set(j, v);
            j = j + 1;
        }
        let p: usize = sp.par[i];
        let up: i64 = fx_add(util[p], avg);
        util.set(p, up);
        proof {
            assert(regret@ =~= acc_step_s(*sp, z@, pre_u, pre_g, i as int).1);
            assert(util@ =~= acc_step_s(*sp, z@, pre_u, pre_g, i as int).0);
        }
    }
}

/// The uniform weight over a range of `c` coordinates.
pub open spec fn frecip_s(c: int) -> int {
    (SCALE as int) / c
}

/// One step of normalization at decision point `i`: if the owned range sums
/// to zero the range becomes the uniform distribution, otherwise each owned
/// coordinate is divided by the sum.
pub open spec fn norm_step_s(sp: StrategyPolytope, x: Seq<i64>, i: int) -> Seq<i64> {
    let l = sp.idx@[i] as int;
    let r = sp.idx@[i + 1] as int;
    let total = range_sum_s(x, l, r);
    if total == 0 {
        Seq::new(x.len(), |j: int| if l <= j < r {
            frecip_s(r - l) as i64
        } else {
            x[j]
        })
    } else {
        Seq::new(x.len(), |j: int| if l <= j < r {
            fdiv64(x[j], total)
        } else {
            x[j]
        })
    }
}

/// The vector after coordinate 0 is pinned to one and decision points
/// `0 .. i` have been normalized, in forward order.
pub open spec fn norm_state_s(sp: StrategyPolytope, x0: Seq<i64>, i: int) -> Seq<i64>
    decreases i,
{
    if i <= 0 {
        x0.update(0, FX_ONE)
    } else {
        norm_step_s(sp, norm_state_s(sp, x0, i - 1), i - 1)
    }
}

/// The full normalization pass.
pub open spec fn normalize_s(sp: StrategyPolytope, x0: Seq<i64>) -> Seq<i64> {
    norm_state_s(sp, x0, sp.k())
}

/// Normalizes raw nonnegative weights into local distributions: per
/// decision point, the owned range is divided by its sum, or becomes the
/// uniform distribution when the sum is zero.
pub fn normalize(sp: &StrategyPolytope, x: Vec<i64>) -> (z: Vec<i64>)
    requires
        sp.wf(),
        x@.len() == sp.n(),
        forall|t: int| 0 <= t < x@.len() ==> x@[t] >= 0,
    ensures
        z@ == normalize_s(*sp, x@),
        z@.len() == x@.len(),
        forall|t: int| 0 <= t < z@.len() ==> z@[t] >= 0,
{
    let mut x = x;
    let ghost x0 = x@;
    x.set(0, FX_ONE);
    proof {
        assert(forall|t: int| 0 <= t < x@.len() ==> x@[t] >= 0);
    }
    let mut i: usize = 0;
    while i < sp.par.len()
        invariant
            sp.wf(),
            i <= sp.k(),
            x@.len() == sp.n(),
            x@ == norm_state_s(*sp, x0, i as int),
            forall|t: int| 0 <= t < x@.len() ==> x@[t] >= 0,
        decreases sp.k() - i,
    {
        let ghost pre = x@;
        let l: usize = sp.idx[i];
        let r: usize = sp.idx[i + 1];
        let total: i64 = range_sum(&x, l, r);
        proof {
            lemma_range_sum_nonneg(x@, l as int, r as int);
        }
        if total == 0 {
            let u: i64 = ((SCALE as u64) / ((r - l) as u64)) as i64;
            proof {
                assert(u == frecip_s(r as int - l as int));
                assert(u >= 0);
            }
            let mut j: usize = l;
            while j < r
                invariant
                    l <= j <= r,
                    r <= x@.len(),
                    x@.len() == pre.len(),
                    u == frecip_s(r as int - l as int),
                    u >= 0,
                    forall|t: int| 0 <= t < l ==> x@[t] == pre[t],
                    forall|t: int| l <= t < j ==> x@[t] == u,
                    forall|t: int| j <= t < pre.len() ==> x@[t] == pre[t],
                decreases r - j,
            {
                x.set(j, u);
                j = j + 1;
            }
        } else {
            let mut j: usize = l;
            while j < r
                invariant
                    l <= j <= r,
                    r <= x@.len(),
                    x@.len() == pre.len(),
                    total >= 1,
                    forall|t: int| 0 <= t < l ==> x@[t] == pre[t],
                    forall|t: int| l <= t < j ==> x@[t] == fdiv64(pre[t], total),
                    forall|t: int| j <= t < pre.len() ==> x@[t] == pre[t],
                    forall|t: int| j <= t < pre.len() ==> x@[t] >= 0,
                decreases r - j,
            {
                let v: i64 = fx_div(x[j], total);
                x.set(j, v);
                j = j + 1;
            }
        }
        proof {
            assert(x@ =~= norm_step_s(*sp, pre, i as int));
            assert(forall|t: int| 0 <= t < x@.len() ==> x@[t] >= 0) by {
                assert(forall|t: int| 0 <= t < pre.len() ==> pre[t] >= 0);
            }
        }
        i = i + 1;
    }
    x
}

/// Exact (unsaturated) integer sum of `x[l..r]`.
pub open spec fn sum_int_s(x: Seq<i64>, l: int, r: int) -> int
    decreases r - l,
{
    if l >= r {
        0
    } else {
        sum_int_s(x, l, r - 1) + x[r - 1]
    }
}

proof fn lemma_idx_mono(sp: StrategyPolytope, a: int, b: int)
    requires
        sp.wf(),
        0 <= a <= b <= sp.k(),
    ensures
        sp.idx@[a] <= sp.idx@[b],
    decreases b - a,
{
    if a < b {
        lemma_idx_mono(sp, a + 1, b);
    }
}

proof fn lemma_sum_int_congruent(x: Seq<i64>, y: Seq<i64>, l: int, r: int)
    requires
        forall|t: int| l <= t < r ==> x[t] == y[t],
    ensures
        sum_int_s(x, l, r) == sum_int_s(y, l, r),
    decreases r - l,
{
    if l < r {
        lemma_sum_int_congruent(x, y, l, r - 1);
    }
}

proof fn lemma_sum_exact(x: Seq<i64>, l: int, r: int)
    requires
        forall|t: int| l <= t < r ==> x[t] >= 0,
        sum_int_s(x, l, r) <= MAX_FIN,
    ensures
        range_sum_s(x, l, r) == sum_int_s(x, l, r),
        sum_int_s(x, l, r) >= 0,
    decreases r - l,
{
    if l < r {
        lemma_sum_exact(x, l, r - 1);
    }
}

proof fn lemma_sum_int_nonneg(x: Seq<i64>, l: int, r: int)
    requires
        forall|t: int| l <= t < r ==> x[t] >= 0,
    ensures
        sum_int_s(x, l, r) >= 0,
    decreases r - l,
{
    if l < r {
        lemma_sum_int_nonneg(x, l, r - 1);
    }
}

proof fn lemma_element_le_sum(x: Seq<i64>, l: int, r: int, t: int)
    requires
        forall|u: int| l <= u < r ==> x[u] >= 0,
        l <= t < r,
    ensures
        x[t] <= sum_int_s(x, l, r),
    decreases r - l,
{
    if t < r - 1 {
        lemma_element_le_sum(x, l, r - 1, t);
    } else {
        lemma_sum_int_nonneg(x, l, r - 1);
    }
}

/// Sum of the flooring divisions of `x[l..r]` by `tt`, bracketed between
/// the exactly rescaled sum and that sum less one unit per coordinate.
proof fn lemma_div_sum_bounds(x: Seq<i64>, z: Seq<i64>, l: int, r: int, tt: int)
    requires
        l <= r,
        1 <= tt <= MAX_FIN,
        forall|t: int| l <= t < r ==> 0 <= #[trigger] x[t] <= tt,
        forall|t: int| l <= t < r ==> z[t] == fdiv64(x[t], tt as i64),
    ensures
        sum_int_s(z, l, r) * tt <= sum_int_s(x, l, r) * (SCALE as int),
        sum_int_s(z, l, r) * tt >= sum_int_s(x, l, r) * (SCALE as int) - (r - l) * tt + (r - l),
        forall|t: int| l <= t < r ==> 0 <= #[trigger] z[t] <= FX_ONE,
    decreases r - l,
{
    if l < r {
        lemma_div_sum_bounds(x, z, l, r - 1, tt);
        let xe = x[r - 1] as int;
        let ze = z[r - 1] as int;
        assert(0 <= (xe * SCALE) / tt <= SCALE) by (nonlinear_arith)
            requires
                0 <= xe <= tt,
                tt >= 1,
                SCALE >= 1,
        ;
        assert(ze == (xe * SCALE) / tt);
        assert(ze * tt <= xe * SCALE && ze * tt >= xe * SCALE - tt + 1) by (nonlinear_arith)
            requires
                ze == (xe * SCALE) / tt,
                tt >= 1,
        ;
        assert((sum_int_s(z, l, r - 1) + ze) * tt == sum_int_s(z, l, r - 1) * tt + ze * tt)
            by (nonlinear_arith);
        assert((sum_int_s(x, l, r - 1) + xe) * SCALE == sum_int_s(x, l, r - 1) * SCALE + xe
            * SCALE) by (nonlinear_arith);
        assert((r - l) * tt == (r - 1 - l) * tt + tt) by (nonlinear_arith);
        assert(sum_int_s(z, l, r) == sum_int_s(z, l, r - 1) + ze);
        assert(sum_int_s(x, l, r) == sum_int_s(x, l, r - 1) + xe);
        assert(sum_int_s(z, l, r) * tt == sum_int_s(z, l, r - 1) * tt + ze * tt)
            by (nonlinear_arith)
            requires
                sum_int_s(z, l, r) == sum_int_s(z, l, r - 1) + ze,
        ;
        assert(sum_int_s(x, l, r) * (SCALE as int) == sum_int_s(x, l, r - 1) * (SCALE as int)
            + xe * (SCALE as int)) by (nonlinear_arith)
            requires
                sum_int_s(x, l, r) == sum_int_s(x, l, r - 1) + xe,
        ;
    }
}

proof fn lemma_uniform_sum(z: Seq<i64>, l: int, r: int, u: int)
    requires
        l <= r,
        forall|t: int| l <= t < r ==> z[t] == u,
    ensures
        sum_int_s(z, l, r) == (r - l) * u,
    decreases r - l,
{
    if l < r {
        lemma_uniform_sum(z, l, r - 1, u);
        assert((r - l) * u == (r - 1 - l) * u + u) by (nonlinear_arith);
    } else {
        assert((r - l) * u == 0) by (nonlinear_arith)
            requires
                r == l,
        ;
    }
}

/// Below decision point `i`, the normalization pass has not yet touched
/// anything: the state agrees with the pinned input from `idx[i]` on.
proof fn lemma_norm_frame_pre(sp: StrategyPolytope, x0: Seq<i64>, i: int)
    requires
        sp.wf(),
        x0.len() == sp.n(),
        0 <= i <= sp.k(),
    ensures
        norm_state_s(sp, x0, i).len() == x0.len(),
        forall|t: int|
            sp.idx@[i] <= t < x0.len() ==> norm_state_s(sp, x0, i)[t] == x0.update(0, FX_ONE)[t],
    decreases i,
{
    if i > 0 {
        lemma_norm_frame_pre(sp, x0, i - 1);
        lemma_idx_mono(sp, i - 1, i);
    }
}

/// From stage `i` on, coordinates before `idx[i]` are final.
proof fn lemma_norm_frame_post(sp: StrategyPolytope, x0: Seq<i64>, i: int, i2: int)
    requires
        sp.wf(),
        x0.len() == sp.n(),
        0 <= i <= i2 <= sp.k(),
    ensures
        norm_state_s(sp, x0, i2).len() == x0.len(),
        forall|t: int|
            0 <= t < sp.idx@[i] ==> norm_state_s(sp, x0, i2)[t] == norm_state_s(sp, x0, i)[t],
    decreases i2 - i,
{
    lemma_norm_frame_pre(sp, x0, i);
    if i < i2 {
        lemma_norm_frame_post(sp, x0, i, i2 - 1);
        lemma_norm_frame_pre(sp, x0, i2 - 1);
        lemma_idx_mono(sp, i, i2 - 1);
    }
}

/// Every local distribution produced by `normalize` is a distribution on
/// each decision point's owned range: entries are nonnegative and the range
/// sums to one, up to one flooring unit per owned coordinate. The exact
/// range sum of the raw input must not saturate.
pub proof fn lemma_normalize_simplex(sp: StrategyPolytope, x0: Seq<i64>, i: int)
    requires
        sp.wf(),
        x0.len() == sp.n(),
        forall|t: int| 0 <= t < x0.len() ==> x0[t] >= 0,
        0 <= i < sp.k(),
        sum_int_s(x0.update(0, FX_ONE), sp.idx@[i] as int, sp.idx@[i + 1] as int) <= MAX_FIN,
    ensures
        normalize_s(sp, x0).len() == sp.n(),
        forall|t: int|
            sp.idx@[i] <= t < sp.idx@[i + 1] ==> 0 <= #[trigger] normalize_s(sp, x0)[t]
                <= FX_ONE,
        sum_int_s(normalize_s(sp, x0), sp.idx@[i] as int, sp.idx@[i + 1] as int) <= FX_ONE,
        sum_int_s(normalize_s(sp, x0), sp.idx@[i] as int, sp.idx@[i + 1] as int) > FX_ONE - (
        sp.idx@[i + 1] - sp.idx@[i]),
    decreases i,
{
    let l = sp.idx@[i] as int;
    let r = sp.idx@[i + 1] as int;
    let x0p = x0.update(0, FX_ONE);
    let xi = norm_state_s(sp, x0, i);
    let xn = norm_state_s(sp, x0, i + 1);
    lemma_norm_frame_pre(sp, x0, i);
    assert(forall|t: int| l <= t < r ==> xi[t] == x0p[t]);
    assert(forall|t: int| l <= t < r ==> xi[t] >= 0);
    lemma_sum_int_congruent(xi, x0p, l, r);
    lemma_sum_exact(xi, l, r);
    let tt = sum_int_s(xi, l, r);
    assert(range_sum_s(xi, l, r) == tt);
    assert(xn == norm_step_s(sp, xi, i));
    if tt == 0 {
        let u = frecip_s(r - l);
        assert(0 <= u <= SCALE && u * (r - l) <= SCALE && u * (r - l) > SCALE - (r - l))
            by (nonlinear_arith)
            requires
                u == (SCALE as int) / (r - l),
                1 <= r - l,
                SCALE >= 1,
        ;
        assert(forall|t: int| l <= t < r ==> xn[t] == u as i64);
        lemma_uniform_sum(xn, l, r, u);
        assert((r - l) * u == u * (r - l)) by (nonlinear_arith);
    } else {
        assert(forall|t: int| l <= t < r ==> xi[t] <= tt) by {
            assert forall|t: int| l <= t < r implies xi[t] <= tt by {
                lemma_element_le_sum(xi, l, r, t);
            }
        }
        assert(forall|t: int| l <= t < r ==> xn[t] == fdiv64(xi[t], tt as i64));
        lemma_div_sum_bounds(xi, xn, l, r, tt);
        let sz = sum_int_s(xn, l, r);
        assert(sz <= SCALE && sz > SCALE - (r - l)) by (nonlinear_arith)
            requires
                sz * tt <= tt * SCALE,
                sz * tt >= tt * SCALE - (r - l) * tt + (r - l),
                tt >= 1,
                r - l >= 1,
        ;
    }
    lemma_norm_frame_post(sp, x0, i + 1, sp.k());
    lemma_idx_mono(sp, i + 1, sp.k());
    lemma_sum_int_congruent(normalize_s(sp, x0), xn, l, r);
    assert(forall|t: int| l <= t < r ==> normalize_s(sp, x0)[t] == xn[t]);
}

/// Below decision point `i`, the expansion pass has not yet touched
/// anything from `idx[i]` on.
proof fn lemma_expand_frame_pre(sp: StrategyPolytope, x0: Seq<i64>, i: int)
    requires
        sp.wf(),
        x0.len() == sp.n(),
        0 <= i <= sp.k(),
    ensures
        expand_state_s(sp, x0, i).len() == x0.len(),
        forall|t: int|
            sp.idx@[i] <= t < x0.len() ==> expand_state_s(sp, x0, i)[t] == x0.update(
                0,
                FX_ONE,
            )[t],
    decreases i,
{
    if i > 0 {
        lemma_expand_frame_pre(sp, x0, i - 1);
        lemma_idx_mono(sp, i - 1, i);
    }
}

/// From stage `i` on, coordinates before `idx[i]` are final in the
/// expansion pass.
proof fn lemma_expand_frame_post(sp: StrategyPolytope, x0: Seq<i64>, i: int, i2: int)
    requires
        sp.wf(),
        x0.len() == sp.n(),
        0 <= i <= i2 <= sp.k(),
    ensures
        expand_state_s(sp, x0, i2).len() == x0.len(),
        forall|t: int|
            0 <= t < sp.idx@[i] ==> expand_state_s(sp, x0, i2)[t] == expand_state_s(
                sp,
                x0,
                i,
            )[t],
    decreases i2 - i,
{
    lemma_expand_frame_pre(sp, x0, i);
    if i < i2 {
        lemma_expand_frame_post(sp, x0, i, i2 - 1);
        lemma_expand_frame_pre(sp, x0, i2 - 1);
        lemma_idx_mono(sp, i, i2 - 1);
    }
}

/// The expansion always pins the root coordinate to one.
pub proof fn lemma_expand_root(sp: StrategyPolytope, x0: Seq<i64>)
    requires
        sp.wf(),
        x0.len() == sp.n(),
    ensures
        expand_s(sp, x0).len() == sp.n(),
        expand_s(sp, x0)[0] == FX_ONE,
{
    let x0p = x0.update(0, FX_ONE);
    lemma_expand_frame_pre(sp, x0, sp.k());
    if sp.k() == 0 {
        assert(expand_s(sp, x0) == x0p);
    } else if sp.idx@[0] > 0 {
        lemma_expand_frame_post(sp, x0, 0, sp.k());
    } else {
        let xi = expand_state_s(sp, x0, 0);
        let xn = expand_state_s(sp, x0, 1);
        assert(xi[0] == FX_ONE);
        assert(sp.par@[0] as int == 0);
        assert(xn == expand_step_s(sp, xi, 0));
        assert(fmul_s(FX_ONE as int, FX_ONE as int) == FX_ONE as int) by (nonlinear_arith)
            requires
                SCALE == 0x1_0000_0000,
                FX_ONE == SCALE,
                MAX_FIN == i64::MAX,
                NEG_INF == i64::MIN,
                MIN_FIN == -i64::MAX,
        ;
        assert(xn[0] == FX_ONE);
        lemma_expand_frame_post(sp, x0, 1, sp.k());
    }
}

/// Where every parent coordinate strictly precedes its decision point's
/// owned range, the expansion leaves each owned coordinate equal to the
/// product of its local value and its parent's expanded value.
pub proof fn lemma_expand_weights(sp: StrategyPolytope, x0: Seq<i64>, i: int)
    requires
        sp.wf(),
        x0.len() == sp.n(),
        forall|t: int| 0 <= t < sp.k() ==> (#[trigger] sp.par@[t]) < sp.idx@[t],
        0 <= i < sp.k(),
    ensures
        expand_s(sp, x0).len() == sp.n(),
        forall|j: int|
            sp.idx@[i] <= j < sp.idx@[i + 1] ==> #[trigger] expand_s(sp, x0)[j] == fmul64(
                x0.update(0, FX_ONE)[j],
                expand_s(sp, x0)[sp.par@[i] as int],
            ),
{
    let x0p = x0.update(0, FX_ONE);
    let p = sp.par@[i] as int;
    let xi = expand_state_s(sp, x0, i);
    let xn = expand_state_s(sp, x0, i + 1);
    lemma_expand_frame_pre(sp, x0, i);
    assert(xn == expand_step_s(sp, xi, i));
    lemma_expand_frame_post(sp, x0, i, sp.k());
    lemma_expand_frame_post(sp, x0, i + 1, sp.k());
    assert(expand_s(sp, x0)[p] == xi[p]);
    assert forall|j: int| sp.idx@[i] <= j < sp.idx@[i + 1] implies #[trigger] expand_s(
        sp,
        x0,
    )[j] == fmul64(x0p[j], expand_s(sp, x0)[p]) by {
        assert(xi[j] == x0p[j]);
        assert(xn[j] == fmul64(xi[j], xi[p]));
        assert(expand_s(sp, x0)[j] == xn[j]);
    }
}

/// Half, in fixed-point units.
pub const FX_HALF: i64 = 0x8000_0000;

/// A ghost snapshot of the regret-matching solver state.
#[verifier::ext_equal]
pub struct CfrSnap {
    pub regret_x: Seq<i64>,
    pub regret_y: Seq<i64>,
    pub z_x: Seq<i64>,
    pub z_y: Seq<i64>,
    pub x: Seq<i64>,
    pub y: Seq<i64>,
    pub sum_x: Seq<i64>,
    pub sum_y: Seq<i64>,
    pub err: Seq<i64>,
}

/// The mutable state threaded through a regret-matching run: accumulated
/// regrets, current local distributions and realization weights, running
/// strategy sums, and the convergence-error trace.
pub struct RegretState {
    pub regret_x: Vec<i64>,
    pub regret_y: Vec<i64>,
    pub z_x: Vec<i64>,
    pub z_y: Vec<i64>,
    pub x: Vec<i64>,
    pub y: Vec<i64>,
    pub sum_x: Vec<i64>,
    pub sum_y: Vec<i64>,
    pub error: Vec<i64>,
}

impl RegretState {
    pub open spec fn snap(&self) -> CfrSnap {
        CfrSnap {
            regret_x: self.regret_x@,
            regret_y: self.regret_y@,
            z_x: self.z_x@,
            z_y: self.z_y@,
            x: self.x@,
            y: self.y@,
            sum_x: self.sum_x@,
            sum_y: self.sum_y@,
            err: self.error@,
        }
    }

    pub open spec fn wf(&self, g: Game) -> bool {
        &&& self.regret_x@.len() == g.sp1.n()
        &&& self.z_x@.len() == g.sp1.n()
        &&& self.x@.len() == g.sp1.n()
        &&& self.sum_x@.len() == g.sp1.n()
        &&& self.regret_y@.len() == g.sp2.n()
        &&& self.z_y@.len() == g.sp2.n()
        &&& self.y@.len() == g.sp2.n()
        &&& self.sum_y@.len() == g.sp2.n()
    }
}

/// The state both solvers start from: zero regrets, the distributions they
/// normalize to, their expansions, and the first error-trace entry.
pub open spec fn cfr_init_s(g: Game) -> CfrSnap {
    let zx = normalize_s(g.sp1, zeros_s(g.sp1.n()));
    let zy = normalize_s(g.sp2, zeros_s(g.sp2.n()));
    let x = expand_s(g.sp1, zx);
    let y = expand_s(g.sp2, zy);
    CfrSnap {
        regret_x: zeros_s(g.sp1.n()),
        regret_y: zeros_s(g.sp2.n()),
        z_x: zx,
        z_y: zy,
        x: x,
        y: y,
        sum_x: x,
        sum_y: y,
        err: Seq::empty().push(g.error_s(x, y)),
    }
}

/// One CFR iteration: accumulate both regret vectors against the previous
/// pair, renormalize the transiently clamped regrets, expand, add the new
/// pair into the uniform running sums, and record the averaged error.
pub open spec fn cfr_step_s(g: Game, s: CfrSnap, k: int) -> CfrSnap {
    let gx = accumulate_s(g.sp1, s.z_x, map_neg_s(g.mat_a.dot_spec(s.y)), s.regret_x);
    let gy = accumulate_s(g.sp2, s.z_y, g.mat_a_t.dot_spec(s.x), s.regret_y);
    let zx = normalize_s(g.sp1, map_clamp0_s(gx));
    let zy = normalize_s(g.sp2, map_clamp0_s(gy));
    let x = expand_s(g.sp1, zx);
    let y = expand_s(g.sp2, zy);
    let sx = map_add_s(s.sum_x, x);
    let sy = map_add_s(s.sum_y, y);
    let e = fdiv64(g.error_s(sx, sy), fxint_s(k + 1) as i64);
    CfrSnap {
        regret_x: gx,
        regret_y: gy,
        z_x: zx,
        z_y: zy,
        x: x,
        y: y,
        sum_x: sx,
        sum_y: sy,
        err: s.err.push(e),
    }
}

/// The CFR state after iterations `1 .. t` have run.
pub open spec fn cfr_run_s(g: Game, t: int) -> CfrSnap
    decreases t,
{
    if t <= 1 {
        cfr_init_s(g)
    } else {
        cfr_step_s(g, cfr_run_s(g, t - 1), t - 1)
    }
}

/// One CFR+ iteration: the first player's regrets are accumulated and then
/// clamped at zero in place, its new pair member is formed and weighted
/// into the running sum with weight `k + 1`, the second player responds to
/// that fresh strategy the same way, and the linearly weighted error is
/// recorded.
pub open spec fn cfr_plus_step_s(g: Game, s: CfrSnap, k: int) -> CfrSnap {
    let gx = map_clamp0_s(accumulate_s(g.sp1, s.z_x, map_neg_s(g.mat_a.dot_spec(s.y)), s.regret_x));
    let zx = normalize_s(g.sp1, gx);
    let x = expand_s(g.sp1, zx);
    let sx = map_add_s(s.sum_x, map_mul_s(x, fxint_s(k + 1) as i64));
    let gy = map_clamp0_s(accumulate_s(g.sp2, s.z_y, g.mat_a_t.dot_spec(x), s.regret_y));
    let zy = normalize_s(g.sp2, gy);
    let y = expand_s(g.sp2, zy);
    let sy = map_add_s(s.sum_y, map_mul_s(y, fxint_s(k + 1) as i64));
    let w = fmul64(fmul64(fxint_s(k + 1) as i64, fxint_s(k + 2) as i64), FX_HALF);
    let e = fdiv64(g.error_s(sx, sy), w);
    CfrSnap {
        regret_x: gx,
        regret_y: gy,
        z_x: zx,
        z_y: zy,
        x: x,
        y: y,
        sum_x: sx,
        sum_y: sy,
        err: s.err.push(e),
    }
}

/// The CFR+ state after iterations `1 .. t` have run.
pub open spec fn cfr_plus_run_s(g: Game, t: int) -> CfrSnap
    decreases t,
{
    if t <= 1 {
        cfr_init_s(g)
    } else {
        cfr_plus_step_s(g, cfr_plus_run_s(g, t - 1), t - 1)
    }
}

/// Builds the shared starting state of both regret-matching solvers.
pub fn cfr_init(game: &Game) -> (st: RegretState)
    requires
        game.wf(),
    ensures
        st.wf(*game),
        st.snap() == cfr_init_s(*game),
{
    let n1: usize = game.sp1.n_coords();
    let n2: usize = game.sp2.n_coords();
    let rx = vec_zeros(n1);
    let ry = vec_zeros(n2);
    let zx = normalize(&game.sp1, vec_copy(&rx));
    let zy = normalize(&game.sp2, vec_copy(&ry));
    let x = prod(&game.sp1, vec_copy(&zx));
    let y = prod(&game.sp2, vec_copy(&zy));
    let sx = vec_copy(&x);
    let sy = vec_copy(&y);
    let e: i64 = game.error(&x, &y);
    let mut err: Vec<i64> = Vec::new();
    err.push(e);
    let st = RegretState {
        regret_x: rx,
        regret_y: ry,
        z_x: zx,
        z_y: zy,
        x: x,
        y: y,
        sum_x: sx,
        sum_y: sy,
        error: err,
    };
    proof {
        assert(st.snap() =~~= cfr_init_s(*game));
    }
    st
}

/// One CFR iteration on the threaded state.
pub fn cfr_round(game: &Game, st: &mut RegretState, k: usize)
    requires
        game.wf(),
        old(st).wf(*game),
        k + 1 <= 0x7FFF_FFFF,
    ensures
        final(st).wf(*game),
        final(st).snap() == cfr_step_s(*game, old(st).snap(), k as int),
{
    let ux = vec_neg(&game.mat_a.dot(&st.y));
    accumulate(&game.sp1, &st.z_x, ux, &mut st.regret_x);
    let uy = game.mat_a_t.dot(&st.x);
    accumulate(&game.sp2, &st.z_y, uy, &mut st.regret_y);
    st.z_x = normalize(&game.sp1, vec_clamp0(&st.regret_x));
    st.z_y = normalize(&game.sp2, vec_clamp0(&st.regret_y));
    st.x = prod(&game.sp1, vec_copy(&st.z_x));
    st.y = prod(&game.sp2, vec_copy(&st.z_y));
    let sx = vec_add(&st.sum_x, &st.x);
    st.sum_x = sx;
    let sy = vec_add(&st.sum_y, &st.y);
    st.sum_y = sy;
    let e: i64 = game.error(&st.sum_x, &st.sum_y);
    let d: i64 = fx_from_usize(k + 1);
    st.error.push(fx_div(e, d));
    proof {
        assert(st.snap() =~~= cfr_step_s(*game, old(st).snap(), k as int));
    }
}

/// One CFR+ iteration on the threaded state. Immediately after each
/// player's clamp step, every entry of that player's regret vector is
/// nonnegative; both clamped vectors are what the state keeps.
pub fn cfr_plus_round(game: &Game, st: &mut RegretState, k: usize)
    requires
        game.wf(),
        old(st).wf(*game),
        k + 2 <= 0x7FFF_FFFF,
    ensures
        final(st).wf(*game),
        final(st).snap() == cfr_plus_step_s(*game, old(st).snap(), k as int),
        forall|t: int| 0 <= t < final(st).regret_x@.len() ==> final(st).regret_x@[t] >= 0,
        forall|t: int| 0 <= t < final(st).regret_y@.len() ==> final(st).regret_y@[t] >= 0,
{
    let ux = vec_neg(&game.mat_a.dot(&st.y));
    accumulate(&game.sp1, &st.z_x, ux, &mut st.regret_x);
    st.regret_x = vec_clamp0(&st.regret_x);
    st.z_x = normalize(&game.sp1, vec_copy(&st.regret_x));
    st.x = prod(&game.sp1, vec_copy(&st.z_x));
    let w1: i64 = fx_from_usize(k + 1);
    let sx = vec_add(&st.sum_x, &vec_mul(&st.x, w1));
    st.sum_x = sx;
    let uy = game.mat_a_t.dot(&st.x);
    accumulate(&game.sp2, &st.z_y, uy, &mut st.regret_y);
    st.regret_y = vec_clamp0(&st.regret_y);
    st.z_y = normalize(&game.sp2, vec_copy(&st.regret_y));
    st.y = prod(&game.sp2, vec_copy(&st.z_y));
    let sy = vec_add(&st.sum_y, &vec_mul(&st.y, w1));
    st.sum_y = sy;
    let w2: i64 = fx_from_usize(k + 2);
    let wmid: i64 = fx_mul(w1, w2);
    proof {
        crate::fx::lemma_fmul_nonneg(w1 as int, w2 as int);
    }
    let w: i64 = fx_mul(wmid, FX_HALF);
    proof {
        crate::fx::lemma_fmul_nonneg(wmid as int, FX_HALF as int);
    }
    let e: i64 = game.error(&st.sum_x, &st.sum_y);
    st.error.push(fx_div(e, w));
    proof {
        assert(st.snap() =~~= cfr_plus_step_s(*game, old(st).snap(), k as int));
    }
}

/// Plain CFR: uniform averaging of the iterates, with the averaged pair and
/// the per-iteration error trace returned.
pub fn cfr(game: &Game, step: usize) -> (r: (Vec<i64>, Vec<i64>, Vec<i64>))
    requires
        game.wf(),
        1 <= step <= 0x7FFF_FFFE,
    ensures
        r.0@ == map_div_s(cfr_run_s(*game, step as int).sum_x, fxint_s(step as int) as i64),
        r.1@ == map_div_s(cfr_run_s(*game, step as int).sum_y, fxint_s(step as int) as i64),
        r.2@ == cfr_run_s(*game, step as int).err,
{
    let mut st = cfr_init(game);
    let mut k: usize = 1;
    while k < step
        invariant
            game.wf(),
            1 <= k <= step <= 0x7FFF_FFFE,
            st.wf(*game),
            st.snap() == cfr_run_s(*game, k as int),
        decreases step - k,
    {
        cfr_round(game, &mut st, k);
        k = k + 1;
    }
    let d: i64 = fx_from_usize(step);
    let rx = vec_div(&st.sum_x, d);
    let ry = vec_div(&st.sum_y, d);
    (rx, ry, st.error)
}

/// CFR+: regrets clamped at zero each iteration and linearly weighted
/// averaging, with the weighted average pair and the error trace returned.
pub fn cfr_plus(game: &Game, step: usize) -> (r: (Vec<i64>, Vec<i64>, Vec<i64>))
    requires
        game.wf(),
        1 <= step <= 0x7FFF_FFFD,
    ensures
        r.0@ == map_div_s(
            cfr_plus_run_s(*game, step as int).sum_x,
            fmul64(
                fmul64(fxint_s(step as int) as i64, fxint_s(step as int + 1) as i64),
                FX_HALF,
            ),
        ),
        r.1@ == map_div_s(
            cfr_plus_run_s(*game, step as int).sum_y,
            fmul64(
                fmul64(fxint_s(step as int) as i64, fxint_s(step as int + 1) as i64),
                FX_HALF,
            ),
        ),
        r.2@ == cfr_plus_run_s(*game, step as int).err,
{
    let mut st = cfr_init(game);
    let mut k: usize = 1;
    while k < step
        invariant
            game.wf(),
            1 <= k <= step <= 0x7FFF_FFFD,
            st.wf(*game),
            st.snap() == cfr_plus_run_s(*game, k as int),
        decreases step - k,
    {
        cfr_plus_round(game, &mut st, k);
        k = k + 1;
    }
    let w1: i64 = fx_from_usize(step);
    let w2: i64 = fx_from_usize(step + 1);
    let wmid: i64 = fx_mul(w1, w2);
    proof {
        crate::fx::lemma_fmul_nonneg(w1 as int, w2 as int);
    }
    let w: i64 = fx_mul(wmid, FX_HALF);
    proof {
        crate::fx::lemma_fmul_nonneg(wmid as int, FX_HALF as int);
    }
    let rx = vec_div(&st.sum_x, w);
    let ry = vec_div(&st.sum_y, w);
    (rx, ry, st.error)
}

} // verus!
