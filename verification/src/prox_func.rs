//! Dilated-entropy distance-generating functions over a strategy polytope:
//! the shared conjugate kernel and the Normal / Centering / Farina variants.

use crate::cfr::{expand_s, frecip_s, prod};
use crate::fx::{
    fexp_s, fln_s, fx_add, fx_div, fx_exp_neg, fx_ln, fx_mul, fx_neg, fx_sub, fxint_s, FX_ONE,
    NEG_INF, SCALE,
};
use crate::game::StrategyPolytope;
use crate::vecfx::{
    dot_s, fadd64, fdiv64, fmul64, fneg64, fsub64, lemma_range_max_ge, lemma_range_sum_nonneg,
    map_neg_s, map_sub_s, range_max, range_max_s, range_sum, range_sum_s, vec_dot, vec_neg,
    vec_sub, vec_zeros, zeros_s,
};
use vstd::prelude::*;

verus! {

/// `fexp_s` on `i64` values.
pub open spec fn fexp64(t: i64) -> i64 {
    fexp_s(t as int) as i64
}

/// `fln_s` on `i64` values.
pub open spec fn fln64(x: i64) -> i64 {
    fln_s(x as int) as i64
}

/// One decision point of the conjugate kernel's reverse pass: scale the
/// owned range down by the dilation weight; if every scaled entry is the
/// unreachability sentinel, the range becomes uniform and the sentinel
/// propagates to the parent; otherwise a max-stabilized softmax replaces
/// the range and `(ln z + max) * w` is credited to the parent.
pub open spec fn kernel_step_s(sp: StrategyPolytope, w: Seq<i64>, x: Seq<i64>, i: int) -> Seq<
    i64,
> {
    let l = sp.idx@[i] as int;
    let r = sp.idx@[i + 1] as int;
    let p = sp.par@[i] as int;
    let wi = w[i];
    let xd = Seq::new(x.len(), |j: int| if l <= j < r {
        fdiv64(x[j], wi)
    } else {
        x[j]
    });
    let m = range_max_s(xd, l, r);
    if m == NEG_INF {
        let xu = Seq::new(x.len(), |j: int| if l <= j < r {
            frecip_s(r - l) as i64
        } else {
            xd[j]
        });
        xu.update(p, NEG_INF)
    } else {
        let xe = Seq::new(x.len(), |j: int| if l <= j < r {
            fexp64(fsub64(xd[j], m))
        } else {
            xd[j]
        });
        let z = range_sum_s(xe, l, r);
        let xz = Seq::new(x.len(), |j: int| if l <= j < r {
            fdiv64(xe[j], z)
        } else {
            xe[j]
        });
        xz.update(p, fadd64(xz[p], fmul64(fadd64(fln64(z), m), wi)))
    }
}

/// The kernel's reverse pass after decision points `k - 1` down to `i`.
pub open spec fn kernel_rev_s(sp: StrategyPolytope, w: Seq<i64>, x0: Seq<i64>, i: int) -> Seq<
    i64,
>
    decreases sp.k() - i,
{
    if i >= sp.k() {
        x0
    } else {
        kernel_step_s(sp, w, kernel_rev_s(sp, w, x0, i + 1), i)
    }
}

/// The scalar the kernel returns: the root accumulator of the reverse pass.
pub open spec fn kernel_val_s(sp: StrategyPolytope, w: Seq<i64>, x0: Seq<i64>) -> i64 {
    kernel_rev_s(sp, w, x0, 0)[0]
}

/// The vector the kernel leaves behind: the reverse pass followed by the
/// top-down expansion, i.e. the conjugate gradient as realization weights.
pub open spec fn kernel_vec_s(sp: StrategyPolytope, w: Seq<i64>, x0: Seq<i64>) -> Seq<i64> {
    expand_s(sp, kernel_rev_s(sp, w, x0, 0))
}

/// The shared conjugate kernel: returns the updated vector, now holding the
/// conjugate gradient, and the conjugate's scalar value.
pub fn conj(sp: &StrategyPolytope, x: Vec<i64>, w: &Vec<i64>) -> (r: (Vec<i64>, i64))
    requires
        sp.wf(),
        x@.len() == sp.n(),
        w@.len() == sp.k(),
        forall|t: int| 0 <= t < w@.len() ==> w@[t] >= 0,
    ensures
        r.0@ == kernel_vec_s(*sp, w@, x@),
        r.0@.len() == sp.n(),
        r.1 == kernel_val_s(*sp, w@, x@),
{
    let mut x = x;
    let ghost x0 = x@;
    let mut i: usize = sp.par.len();
    while i > 0
        invariant
            sp.wf(),
            i <= sp.k(),
            x@.len() == sp.n(),
            w@.len() == sp.k(),
            forall|t: int| 0 <= t < w@.len() ==> w@[t] >= 0,
            x@ == kernel_rev_s(*sp, w@, x0, i as int),
        decreases i,
    {
        i = i - 1;
        let ghost pre = x@;
        let l: usize = sp.idx[i];
        let r: usize = sp.idx[i + 1];
        let p: usize = sp.par[i];
        let wi: i64 = w[i];
        let mut j: usize = l;
        while j < r
            invariant
                l <= j <= r,
                r <= x@.len(),
                x@.len() == pre.len(),
                wi == w@[i as int],
                wi >= 0,
                l == sp.idx@[i as int] as int,
                r == sp.idx@[i as int + 1] as int,
                forall|t: int| 0 <= t < l ==> x@[t] == pre[t],
                forall|t: int| l <= t < j ==> x@[t] == fdiv64(pre[t], wi),
                forall|t: int| j <= t < pre.len() ==> x@[t] == pre[t],
            decreases r - j,
        {
            let v: i64 = fx_div(x[j], wi);
            x.set(j, v);
            j = j + 1;
        }
        let ghost xd = Seq::new(pre.len(), |j: int| if l <= j < r {
            fdiv64(pre[j], w@[i as int])
        } else {
            pre[j]
        });
        proof {
            assert(x@ =~= xd);
        }
        let m: i64 = range_max(&x, l, r);
        if m == NEG_INF {
            let u: i64 = ((SCALE as u64) / ((r - l) as u64)) as i64;
            proof {
                assert(u == frecip_s(r as int - l as int));
            }
            let mut j: usize = l;
            while j < r
                invariant
                    l <= j <= r,
                    r <= x@.len(),
                    x@.len() == xd.len(),
                    u == frecip_s(r as int - l as int),
                    forall|t: int| 0 <= t < l ==> x@[t] == xd[t],
                    forall|t: int| l <= t < j ==> x@[t] == u,
                    forall|t: int| j <= t < xd.len() ==> x@[t] == xd[t],
                decreases r - j,
            {
                x.set(j, u);
                j = j + 1;
            }
            x.set(p, NEG_INF);
            proof {
                assert(x@ =~= kernel_step_s(*sp, w@, pre, i as int));
            }
        } else {
            let mut j: usize = l;
            while j < r
                invariant
                    l <= j <= r,
                    r <= x@.len(),
                    x@.len() == xd.len(),
                    m == range_max_s(xd, l as int, r as int),
                    m != NEG_INF,
                    forall|t: int| 0 <= t < l ==> x@[t] == xd[t],
                    forall|t: int|
                        l <= t < j ==> x@[t] == fexp64(fsub64(xd[t], m)) && x@[t] >= 0,
                    forall|t: int| j <= t < xd.len() ==> x@[t] == xd[t],
                decreases r - j,
            {
                proof {
                    lemma_range_max_ge(xd, l as int, r as int, j as int);
                }
                let t: i64 = fx_sub(x[j], m);
                let v: i64 = fx_exp_neg(t);
                x.set(j, v);
                j = j + 1;
            }
            let ghost xe = Seq::new(xd.len(), |j: int| if l <= j < r {
                fexp64(fsub64(xd[j], m))
            } else {
                xd[j]
            });
            proof {
                assert(x@ =~= xe);
            }
            let z: i64 = range_sum(&x, l, r);
            proof {
                lemma_range_sum_nonneg(x@, l as int, r as int);
            }
            let mut j: usize = l;
            while j < r
                invariant
                    l <= j <= r,
                    r <= x@.len(),
                    x@.len() == xe.len(),
                    z >= 0,
                    z == range_sum_s(xe, l as int, r as int),
                    forall|t: int| 0 <= t < l ==> x@[t] == xe[t],
                    forall|t: int| l <= t < j ==> x@[t] == fdiv64(xe[t], z),
                    forall|t: int| j <= t < xe.len() ==> x@[t] == xe[t],
                decreases r - j,
            {
                let v: i64 = fx_div(x[j], z);
                x.set(j, v);
                j = j + 1;
            }
            let acc: i64 = fx_add(x[p], fx_mul(fx_add(fx_ln(z), m), wi));
            x.set(p, acc);
            proof {
                assert(x@ =~= kernel_step_s(*sp, w@, pre, i as int));
            }
        }
    }
    let val: i64 = x[0];
    let y = prod(sp, x);
    (y, val)
}

/// The `(w, ws)` pair of the recursive dilation-weight pass after decision
/// points `k - 1` down to `i`: `w[i]` becomes one plus the largest subtree
/// weight below it, and is accumulated into its parent's subtree weight.
pub open spec fn weights_state_s(sp: StrategyPolytope, i: int) -> (Seq<i64>, Seq<i64>)
    decreases sp.k() - i,
{
    if i >= sp.k() {
        (Seq::new(sp.k() as nat, |t: int| FX_ONE), zeros_s(sp.n()))
    } else {
        let prev = weights_state_s(sp, i + 1);
        let l = sp.idx@[i] as int;
        let r = sp.idx@[i + 1] as int;
        let p = sp.par@[i] as int;
        let wi = fadd64(prev.0[i], range_max_s(prev.1, l, r));
        (prev.0.update(i, wi), prev.1.update(p, fadd64(prev.1[p], wi)))
    }
}

/// The finished per-decision-point dilation weights and per-coordinate
/// subtree weights.
pub open spec fn weights_s(sp: StrategyPolytope) -> (Seq<i64>, Seq<i64>) {
    weights_state_s(sp, 0)
}

/// Computes the dilation weights `w` and subtree weights `ws` of a
/// polytope, bottom up.
pub fn prox_weights(sp: &StrategyPolytope) -> (r: (Vec<i64>, Vec<i64>))
    requires
        sp.wf(),
    ensures
        r.0@ == weights_s(*sp).0,
        r.1@ == weights_s(*sp).1,
        r.0@.len() == sp.k(),
        r.1@.len() == sp.n(),
        forall|t: int| 0 <= t < r.0@.len() ==> r.0@[t] >= FX_ONE,
        forall|t: int| 0 <= t < r.1@.len() ==> r.1@[t] >= 0,
{
    let k: usize = sp.par.len();
    let n: usize = sp.n_coords();
    let mut w: Vec<i64> = Vec::new();
    let mut t: usize = 0;
    while t < k
        invariant
            t <= k,
            w@.len() == t,
            forall|u: int| 0 <= u < t ==> w@[u] == FX_ONE,
        decreases k - t,
    {
        w.push(FX_ONE);
        t = t + 1;
    }
    let mut ws = vec_zeros(n);
    proof {
        assert(w@ =~= weights_state_s(*sp, sp.k()).0);
        assert(ws@ =~= weights_state_s(*sp, sp.k()).1);
    }
    let mut i: usize = k;
    while i > 0
        invariant
            sp.wf(),
            i <= sp.k(),
            k == sp.k(),
            w@.len() == sp.k(),
            ws@.len() == sp.n(),
            w@ == weights_state_s(*sp, i as int).0,
            ws@ == weights_state_s(*sp, i as int).1,
            forall|u: int| 0 <= u < w@.len() ==> w@[u] >= FX_ONE,
            forall|u: int| 0 <= u < ws@.len() ==> ws@[u] >= 0,
        decreases i,
    {
        i = i - 1;
        let l: usize = sp.idx[i];
        let r: usize = sp.idx[i + 1];
        let p: usize = sp.par[i];
        let m: i64 = range_max(&ws, l, r);
        proof {
            lemma_range_max_ge(ws@, l as int, r as int, l as int);
        }
        let wi: i64 = fx_add(w[i], m);
        w.set(i, wi);
        let vp: i64 = fx_add(ws[p], wi);
        ws.set(p, vp);
        proof {
            assert(w@ =~= weights_state_s(*sp, i as int).0);
            assert(ws@ =~= weights_state_s(*sp, i as int).1);
        }
    }
    (w, ws)
}

/// One decision point of the coefficient pass: add `w[i]` to every owned
/// coordinate.
pub open spec fn coef_step_s(sp: StrategyPolytope, w: Seq<i64>, c: Seq<i64>, i: int) -> Seq<
    i64,
> {
    let l = sp.idx@[i] as int;
    let r = sp.idx@[i + 1] as int;
    Seq::new(c.len(), |j: int| if l <= j < r {
        fadd64(c[j], w[i])
    } else {
        c[j]
    })
}

/// The coefficient vector after decision points `0 .. i` have been folded
/// onto the negated subtree weights.
pub open spec fn coef_state_s(sp: StrategyPolytope, w: Seq<i64>, ws: Seq<i64>, i: int) -> Seq<
    i64,
>
    decreases i,
{
    if i <= 0 {
        map_neg_s(ws)
    } else {
        coef_step_s(sp, w, coef_state_s(sp, w, ws, i - 1), i - 1)
    }
}

/// The per-coordinate entropy coefficients `c0 = w_owner - ws`.
pub open spec fn coef_s(sp: StrategyPolytope, w: Seq<i64>, ws: Seq<i64>) -> Seq<i64> {
    coef_state_s(sp, w, ws, sp.k())
}

/// Computes the per-coordinate coefficient of `x ln x` from the dilation
/// and subtree weights.
pub fn prox_coef(sp: &StrategyPolytope, w: &Vec<i64>, ws: &Vec<i64>) -> (c: Vec<i64>)
    requires
        sp.wf(),
        w@.len() == sp.k(),
        ws@.len() == sp.n(),
    ensures
        c@ == coef_s(*sp, w@, ws@),
        c@.len() == sp.n(),
{
    let mut c = vec_neg(ws);
    proof {
        assert(c@ =~= coef_state_s(*sp, w@, ws@, 0));
    }
    let mut i: usize = 0;
    while i < sp.par.len()
        invariant
            sp.wf(),
            i <= sp.k(),
            w@.len() == sp.k(),
            ws@.len() == sp.n(),
            c@.len() == sp.n(),
            c@ == coef_state_s(*sp, w@, ws@, i as int),
        decreases sp.k() - i,
    {
        let ghost pre = c@;
        let l: usize = sp.idx[i];
        let r: usize = sp.idx[i + 1];
        let wi: i64 = w[i];
        let mut j: usize = l;
        while j < r
            invariant
                l <= j <= r,
                r <= c@.len(),
                c@.len() == pre.len(),
                wi == w@[i as int],
                forall|t: int| 0 <= t < l ==> c@[t] == pre[t],
                forall|t: int| l <= t < j ==> c@[t] == fadd64(pre[t], wi),
                forall|t: int| j <= t < pre.len() ==> c@[t] == pre[t],
            decreases r - j,
        {
            let v: i64 = fx_add(c[j], wi);
            c.set(j, v);
            j = j + 1;
        }
        proof {
            assert(c@ =~= coef_step_s(*sp, w@, pre, i as int));
        }
        i = i + 1;
    }
    c
}

/// The prox gradient map: `(ln x + 1) * c0 + c1`, coordinate by coordinate.
pub open spec fn grad_map_s(c0: Seq<i64>, c1: Seq<i64>, x: Seq<i64>) -> Seq<i64> {
    Seq::new(x.len(), |j: int| fadd64(fmul64(fadd64(fln64(x[j]), FX_ONE), c0[j]), c1[j]))
}

/// The conjugate value of a prox function with linear shift `c1` and
/// additive offset `off`.
pub open spec fn conj_val_s(
    sp: StrategyPolytope,
    w: Seq<i64>,
    c1: Seq<i64>,
    off: i64,
    x: Seq<i64>,
) -> i64 {
    fadd64(kernel_val_s(sp, w, map_sub_s(x, c1)), off)
}

/// The conjugate gradient of a prox function with linear shift `c1`.
pub open spec fn conj_vec_s(sp: StrategyPolytope, w: Seq<i64>, c1: Seq<i64>, x: Seq<i64>) -> Seq<
    i64,
> {
    kernel_vec_s(sp, w, map_sub_s(x, c1))
}

/// Subtracting a zero vector changes nothing.
pub proof fn lemma_sub_zeros(x: Seq<i64>)
    ensures
        map_sub_s(x, zeros_s(x.len() as int)) == x,
{
    assert(map_sub_s(x, zeros_s(x.len() as int)) =~= x);
}

/// Adding zero changes nothing.
pub proof fn lemma_add_zero(v: i64)
    ensures
        fadd64(v, 0) == v,
{
}

fn grad_vec(c0: &Vec<i64>, c1: &Vec<i64>, x: &Vec<i64>) -> (r: Vec<i64>)
    requires
        c0@.len() == x@.len(),
        c1@.len() == x@.len(),
    ensures
        r@ == grad_map_s(c0@, c1@, x@),
        r@.len() == x@.len(),
{
    let mut r: Vec<i64> = Vec::new();
    let mut j: usize = 0;
    while j < x.len()
        invariant
            j <= x@.len(),
            c0@.len() == x@.len(),
            c1@.len() == x@.len(),
            r@.len() == j,
            forall|t: int|
                0 <= t < j ==> r@[t] == fadd64(
                    fmul64(fadd64(fln64(x@[t]), FX_ONE), c0@[t]),
                    c1@[t],
                ),
        decreases x@.len() - j,
    {
        let v: i64 = fx_add(fx_mul(fx_add(fx_ln(x[j]), FX_ONE), c0[j]), c1[j]);
        r.push(v);
        j = j + 1;
    }
    proof {
        assert(r@ =~= grad_map_s(c0@, c1@, x@));
    }
    r
}

/// The shared capability interface of the distance-generating functions:
/// the gradient, the conjugate value and gradient, the proximal projection,
/// and the center. Every variant is characterized by its polytope, its
/// dilation weights `w`, its entropy coefficients `c0`, its linear shift
/// `c1`, and its additive conjugate offset.
pub trait ProxFunction: Sized {
    spec fn sp_s(&self) -> StrategyPolytope;

    spec fn w_s(&self) -> Seq<i64>;

    spec fn c0_s(&self) -> Seq<i64>;

    spec fn c1_s(&self) -> Seq<i64>;

    spec fn off_s(&self) -> i64;

    spec fn center_s(&self) -> Seq<i64>;

    spec fn wf(&self) -> bool;

    /// The gradient of the prox function at `x`.
    fn grad(&self, x: Vec<i64>) -> (r: Vec<i64>)
        requires
            self.wf(),
            x@.len() == self.sp_s().n(),
        ensures
            r@ == grad_map_s(self.c0_s(), self.c1_s(), x@),
            r@.len() == x@.len(),
    ;

    /// The conjugate value at `x`.
    fn conj(&self, x: Vec<i64>) -> (r: i64)
        requires
            self.wf(),
            x@.len() == self.sp_s().n(),
        ensures
            r == conj_val_s(self.sp_s(), self.w_s(), self.c1_s(), self.off_s(), x@),
    ;

    /// The conjugate gradient at `x`.
    fn conj_grad(&self, x: Vec<i64>) -> (r: Vec<i64>)
        requires
            self.wf(),
            x@.len() == self.sp_s().n(),
        ensures
            r@ == conj_vec_s(self.sp_s(), self.w_s(), self.c1_s(), x@),
            r@.len() == x@.len(),
    ;

    /// The proximal projection: the conjugate gradient at `grad(x) - s`.
    fn projection(&self, x: Vec<i64>, s: Vec<i64>) -> (r: Vec<i64>)
        requires
            self.wf(),
            x@.len() == self.sp_s().n(),
            s@.len() == self.sp_s().n(),
        ensures
            r@ == conj_vec_s(
                self.sp_s(),
                self.w_s(),
                self.c1_s(),
                map_sub_s(grad_map_s(self.c0_s(), self.c1_s(), x@), s@),
            ),
            r@.len() == x@.len(),
    ;

    /// The center the variant anchors at.
    fn center(&self) -> (c: &Vec<i64>)
        requires
            self.wf(),
        ensures
            c@ == self.center_s(),
            c@.len() == self.sp_s().n(),
    ;
}

/// The default distance-generating function: anchored at the minimizer of
/// the dilated entropy itself, with no linear shift.
pub struct Normal {
    pub sp: StrategyPolytope,
    pub w: Vec<i64>,
    pub c: Vec<i64>,
    pub center_pt: Vec<i64>,
    pub min_off: i64,
}

impl Normal {
    /// Builds the Normal prox function of a polytope: recursive dilation
    /// weights, entropy coefficients, the kernel's minimizer as center,
    /// and the negated kernel value at the origin as conjugate offset.
    pub fn new(sp: &StrategyPolytope) -> (pf: Normal)
        requires
            sp.wf(),
        ensures
            pf.wf(),
            pf.sp_s().par@ == sp.par@,
            pf.sp_s().idx@ == sp.idx@,
            pf.sp_s().n() == sp.n(),
            pf.w_s() == weights_s(*sp).0,
            pf.c0_s() == coef_s(*sp, weights_s(*sp).0, weights_s(*sp).1),
            pf.c1_s() == zeros_s(sp.n()),
            pf.off_s() == fneg64(kernel_val_s(*sp, weights_s(*sp).0, zeros_s(sp.n()))),
            pf.center_s() == kernel_vec_s(*sp, weights_s(*sp).0, zeros_s(sp.n())),
    {
        let n: usize = sp.n_coords();
        let wws = prox_weights(sp);
        let w = wws.0;
        let ws = wws.1;
        let c = prox_coef(sp, &w, &ws);
        let zero_vec = vec_zeros(n);
        let cv = conj(sp, zero_vec, &w);
        let center_pt = cv.0;
        let min_off: i64 = fx_neg(cv.1);
        let pf = Normal { sp: sp.clone_shape(), w, c, center_pt, min_off };
        proof {
            assert(pf.c1_s() =~= zeros_s(sp.n()));
        }
        pf
    }
}

impl ProxFunction for Normal {
    open spec fn sp_s(&self) -> StrategyPolytope {
        self.sp
    }

    open spec fn w_s(&self) -> Seq<i64> {
        self.w@
    }

    open spec fn c0_s(&self) -> Seq<i64> {
        self.c@
    }

    open spec fn c1_s(&self) -> Seq<i64> {
        zeros_s(self.sp.n())
    }

    open spec fn off_s(&self) -> i64 {
        self.min_off
    }

    open spec fn center_s(&self) -> Seq<i64> {
        self.center_pt@
    }

    open spec fn wf(&self) -> bool {
        &&& self.sp.wf()
        &&& self.w@.len() == self.sp.k()
        &&& (forall|t: int| 0 <= t < self.w@.len() ==> self.w@[t] >= 0)
        &&& self.c@.len() == self.sp.n()
        &&& self.center_pt@.len() == self.sp.n()
    }

    fn grad(&self, x: Vec<i64>) -> (r: Vec<i64>) {
        let zc = vec_zeros(x.len());
        proof {
            assert(zc@ =~= zeros_s(self.sp.n()));
        }
        grad_vec(&self.c, &zc, &x)
    }

    fn conj(&self, x: Vec<i64>) -> (r: i64) {
        proof {
            lemma_sub_zeros(x@);
        }
        let cv = conj(&self.sp, x, &self.w);
        fx_add(cv.1, self.min_off)
    }

    fn conj_grad(&self, x: Vec<i64>) -> (r: Vec<i64>) {
        proof {
            lemma_sub_zeros(x@);
        }
        let cv = conj(&self.sp, x, &self.w);
        cv.0
    }

    fn projection(&self, x: Vec<i64>, s: Vec<i64>) -> (r: Vec<i64>) {
        let g = self.grad(x);
        let d = vec_sub(&g, &s);
        self.conj_grad(d)
    }

    fn center(&self) -> (c: &Vec<i64>) {
        &self.center_pt
    }
}

/// The linear shift that re-anchors a prox function at `cen`: the negated
/// Normal gradient there.
pub open spec fn center_shift_s(c0: Seq<i64>, cen: Seq<i64>) -> Seq<i64> {
    Seq::new(cen.len(), |j: int| fneg64(fmul64(fadd64(fln64(cen[j]), FX_ONE), c0[j])))
}

/// `x ln x`, coordinate by coordinate.
pub open spec fn xlnx_s(cen: Seq<i64>) -> Seq<i64> {
    Seq::new(cen.len(), |j: int| fmul64(cen[j], fln64(cen[j])))
}

/// The conjugate offset that makes the re-anchored prox vanish at `cen`.
pub open spec fn center_off_s(c0: Seq<i64>, c1: Seq<i64>, cen: Seq<i64>) -> i64 {
    fadd64(dot_s(xlnx_s(cen), c0), dot_s(c1, cen))
}

proof fn lemma_coef_finite(sp: StrategyPolytope, w: Seq<i64>, ws: Seq<i64>, i: int)
    requires
        sp.wf(),
        0 <= i <= sp.k(),
        w.len() == sp.k(),
        ws.len() == sp.n(),
        forall|t: int| 0 <= t < ws.len() ==> ws[t] >= 0,
        forall|t: int| 0 <= t < w.len() ==> w[t] >= 0,
    ensures
        coef_state_s(sp, w, ws, i).len() == sp.n(),
        forall|j: int|
            0 <= j < sp.n() ==> #[trigger] coef_state_s(sp, w, ws, i)[j] > NEG_INF,
    decreases i,
{
    if i > 0 {
        lemma_coef_finite(sp, w, ws, i - 1);
    }
}

/// A prox function re-anchored at an externally supplied strategy `cen`:
/// the linear shift cancels the Normal gradient there and the offset makes
/// the function vanish there.
pub struct Centering {
    pub sp: StrategyPolytope,
    pub w: Vec<i64>,
    pub c0: Vec<i64>,
    pub c1: Vec<i64>,
    pub center_pt: Vec<i64>,
    pub min_off: i64,
}

impl Centering {
    /// Builds the re-anchored prox function from a polytope and a center.
    pub fn new(sp: &StrategyPolytope, center: Vec<i64>) -> (pf: Centering)
        requires
            sp.wf(),
            center@.len() == sp.n(),
        ensures
            pf.wf(),
            pf.sp_s().par@ == sp.par@,
            pf.sp_s().idx@ == sp.idx@,
            pf.sp_s().n() == sp.n(),
            pf.w_s() == weights_s(*sp).0,
            pf.c0_s() == coef_s(*sp, weights_s(*sp).0, weights_s(*sp).1),
            pf.c1_s() == center_shift_s(pf.c0_s(), center@),
            pf.center_s() == center@,
            pf.off_s() == center_off_s(pf.c0_s(), pf.c1_s(), center@),
    {
        let wws = prox_weights(sp);
        let w = wws.0;
        let ws = wws.1;
        let c0 = prox_coef(sp, &w, &ws);
        let mut c1: Vec<i64> = Vec::new();
        let mut j: usize = 0;
        while j < center.len()
            invariant
                j <= center@.len(),
                center@.len() == c0@.len(),
                c1@.len() == j,
                forall|t: int|
                    0 <= t < j ==> c1@[t] == fneg64(
                        fmul64(fadd64(fln64(center@[t]), FX_ONE), c0@[t]),
                    ),
            decreases center@.len() - j,
        {
            let v: i64 = fx_neg(fx_mul(fx_add(fx_ln(center[j]), FX_ONE), c0[j]));
            c1.push(v);
            j = j + 1;
        }
        proof {
            assert(c1@ =~= center_shift_s(c0@, center@));
        }
        let mut xlnx: Vec<i64> = Vec::new();
        let mut j2: usize = 0;
        while j2 < center.len()
            invariant
                j2 <= center@.len(),
                xlnx@.len() == j2,
                forall|t: int|
                    0 <= t < j2 ==> xlnx@[t] == fmul64(center@[t], fln64(center@[t])),
            decreases center@.len() - j2,
        {
            let v: i64 = fx_mul(center[j2], fx_ln(center[j2]));
            xlnx.push(v);
            j2 = j2 + 1;
        }
        proof {
            assert(xlnx@ =~= xlnx_s(center@));
        }
        let d1: i64 = vec_dot(&xlnx, &c0);
        let d2: i64 = vec_dot(&c1, &center);
        let min_off: i64 = fx_add(d1, d2);
        let pf = Centering { sp: sp.clone_shape(), w, c0, c1, center_pt: center, min_off };
        proof {
            lemma_coef_finite(*sp, pf.w@, ws@, sp.k());
        }
        pf
    }
}

impl ProxFunction for Centering {
    open spec fn sp_s(&self) -> StrategyPolytope {
        self.sp
    }

    open spec fn w_s(&self) -> Seq<i64> {
        self.w@
    }

    open spec fn c0_s(&self) -> Seq<i64> {
        self.c0@
    }

    open spec fn c1_s(&self) -> Seq<i64> {
        self.c1@
    }

    open spec fn off_s(&self) -> i64 {
        self.min_off
    }

    open spec fn center_s(&self) -> Seq<i64> {
        self.center_pt@
    }

    open spec fn wf(&self) -> bool {
        &&& self.sp.wf()
        &&& self.w@.len() == self.sp.k()
        &&& (forall|t: int| 0 <= t < self.w@.len() ==> self.w@[t] >= 0)
        &&& self.c0@.len() == self.sp.n()
        &&& self.c1@.len() == self.sp.n()
        &&& self.center_pt@.len() == self.sp.n()
        &&& self.c1@ == center_shift_s(self.c0@, self.center_pt@)
        &&& (forall|t: int| 0 <= t < self.c0@.len() ==> self.c0@[t] > NEG_INF)
    }

    fn grad(&self, x: Vec<i64>) -> (r: Vec<i64>) {
        grad_vec(&self.c0, &self.c1, &x)
    }

    fn conj(&self, x: Vec<i64>) -> (r: i64) {
        let x2 = vec_sub(&x, &self.c1);
        let cv = conj(&self.sp, x2, &self.w);
        fx_add(cv.1, self.min_off)
    }

    fn conj_grad(&self, x: Vec<i64>) -> (r: Vec<i64>) {
        let x2 = vec_sub(&x, &self.c1);
        let cv = conj(&self.sp, x2, &self.w);
        cv.0
    }

    fn projection(&self, x: Vec<i64>, s: Vec<i64>) -> (r: Vec<i64>) {
        let g = self.grad(x);
        let d = vec_sub(&g, &s);
        self.conj_grad(d)
    }

    fn center(&self) -> (c: &Vec<i64>) {
        &self.center_pt
    }
}

/// Re-anchoring is exact: the gradient of a Centering prox function at its
/// own center is the zero vector, at every coordinate, whenever the center
/// is strictly positive.
pub proof fn lemma_centering_grad_at_center(pf: Centering)
    requires
        pf.wf(),
        forall|j: int| 0 <= j < pf.center_s().len() ==> pf.center_s()[j] > 0,
    ensures
        grad_map_s(pf.c0_s(), pf.c1_s(), pf.center_s()).len() == pf.sp_s().n(),
        forall|j: int|
            0 <= j < pf.center_s().len() ==> #[trigger] grad_map_s(
                pf.c0_s(),
                pf.c1_s(),
                pf.center_s(),
            )[j] == 0,
{
    let cen = pf.center_s();
    let c0 = pf.c0_s();
    let c1 = pf.c1_s();
    assert forall|j: int| 0 <= j < cen.len() implies #[trigger] grad_map_s(c0, c1, cen)[j]
        == 0 by {
        let cj = cen[j];
        crate::fx::lemma_fln_finite(cj as int);
        let lnc = fln64(cj);
        let a = fadd64(lnc, FX_ONE);
        let v = fmul64(a, c0[j]);
        assert(a != NEG_INF);
        assert(v != NEG_INF);
        assert(c1[j] == fneg64(v));
        assert(fadd64(v, fneg64(v)) == 0);
    }
}

/// One decision point of the uniform-center shift: credit
/// `w * ln(range size)` to the parent coordinate.
pub open spec fn far_shift_state_s(sp: StrategyPolytope, w: Seq<i64>, i: int) -> Seq<i64>
    decreases i,
{
    if i <= 0 {
        zeros_s(sp.n())
    } else {
        let prev = far_shift_state_s(sp, w, i - 1);
        let l = sp.idx@[i - 1] as int;
        let r = sp.idx@[i] as int;
        let p = sp.par@[i - 1] as int;
        prev.update(p, fadd64(prev[p], fmul64(w[i - 1], fln64(fxint_s(r - l) as i64))))
    }
}

/// The linear shift that makes the uniform strategy the induced center.
pub open spec fn far_shift_s(sp: StrategyPolytope, w: Seq<i64>) -> Seq<i64> {
    far_shift_state_s(sp, w, sp.k())
}

/// The tolerance, in fixed-point units, of the construction-time
/// self-consistency check on the Farina variant's induced center.
pub const CENTER_TOL: i64 = 4;

/// The variant whose linear shift places the induced center at the uniform
/// strategy with conjugate value zero there.
pub struct Farina2021 {
    pub sp: StrategyPolytope,
    pub w: Vec<i64>,
    pub c0: Vec<i64>,
    pub c1: Vec<i64>,
    pub center_pt: Vec<i64>,
}

impl Farina2021 {
    /// Builds the uniform-centered prox function. Construction checks that
    /// the conjugate value at the induced center is within `CENTER_TOL`
    /// units of zero and yields nothing when the check fails.
    #[verifier::rlimit(50)]
    pub fn new(sp: &StrategyPolytope) -> (r: Option<Farina2021>)
        requires
            sp.wf(),
        ensures
            r.is_some() <==> -CENTER_TOL <= kernel_val_s(
                *sp,
                weights_s(*sp).0,
                map_neg_s(far_shift_s(*sp, weights_s(*sp).0)),
            ) <= CENTER_TOL,
            r.is_some() ==> {
                let pf = r.unwrap();
                &&& pf.wf()
                &&& pf.sp_s().par@ == sp.par@
                &&& pf.sp_s().idx@ == sp.idx@
                &&& pf.sp_s().n() == sp.n()
                &&& pf.w_s() == weights_s(*sp).0
                &&& pf.c0_s() == coef_s(*sp, weights_s(*sp).0, weights_s(*sp).1)
                &&& pf.c1_s() == far_shift_s(*sp, weights_s(*sp).0)
                &&& pf.off_s() == 0
                &&& pf.center_s() == kernel_vec_s(
                    *sp,
                    weights_s(*sp).0,
                    map_neg_s(far_shift_s(*sp, weights_s(*sp).0)),
                )
            },
    {
        let wws = prox_weights(sp);
        let w = wws.0;
        let ws = wws.1;
        let c0 = prox_coef(sp, &w, &ws);
        let n: usize = sp.n_coords();
        let mut c1 = vec_zeros(n);
        proof {
            assert(c1@ =~= far_shift_state_s(*sp, w@, 0));
        }
        let mut i: usize = 0;
        while i < sp.par.len()
            invariant
                sp.wf(),
                i <= sp.k(),
                w@.len() == sp.k(),
                c1@.len() == sp.n(),
                c1@ == far_shift_state_s(*sp, w@, i as int),
            decreases sp.k() - i,
        {
            let l: usize = sp.idx[i];
            let r: usize = sp.idx[i + 1];
            let p: usize = sp.par[i];
            let sz: i64 = crate::fx::fx_from_usize(r - l);
            let v: i64 = fx_add(c1[p], fx_mul(w[i], fx_ln(sz)));
            c1.set(p, v);
            proof {
                assert(c1@ =~= far_shift_state_s(*sp, w@, i as int + 1));
            }
            i = i + 1;
        }
        let neg_c1 = vec_neg(&c1);
        proof {
            assert(neg_c1@ =~= map_neg_s(far_shift_s(*sp, w@)));
        }
        let cv = conj(sp, neg_c1, &w);
        let center_pt = cv.0;
        let chk: i64 = cv.1;
        if -CENTER_TOL <= chk && chk <= CENTER_TOL {
            Some(Farina2021 { sp: sp.clone_shape(), w, c0, c1, center_pt })
        } else {
            None
        }
    }
}

impl ProxFunction for Farina2021 {
    open spec fn sp_s(&self) -> StrategyPolytope {
        self.sp
    }

    open spec fn w_s(&self) -> Seq<i64> {
        self.w@
    }

    open spec fn c0_s(&self) -> Seq<i64> {
        self.c0@
    }

    open spec fn c1_s(&self) -> Seq<i64> {
        self.c1@
    }

    open spec fn off_s(&self) -> i64 {
        0
    }

    open spec fn center_s(&self) -> Seq<i64> {
        self.center_pt@
    }

    open spec fn wf(&self) -> bool {
        &&& self.sp.wf()
        &&& self.w@.len() == self.sp.k()
        &&& (forall|t: int| 0 <= t < self.w@.len() ==> self.w@[t] >= 0)
        &&& self.c0@.len() == self.sp.n()
        &&& self.c1@.len() == self.sp.n()
        &&& self.center_pt@.len() == self.sp.n()
    }

    fn grad(&self, x: Vec<i64>) -> (r: Vec<i64>) {
        grad_vec(&self.c0, &self.c1, &x)
    }

    fn conj(&self, x: Vec<i64>) -> (r: i64) {
        let x2 = vec_sub(&x, &self.c1);
        let cv = conj(&self.sp, x2, &self.w);
        proof {
            lemma_add_zero(cv.1);
        }
        cv.1
    }

    fn conj_grad(&self, x: Vec<i64>) -> (r: Vec<i64>) {
        let x2 = vec_sub(&x, &self.c1);
        let cv = conj(&self.sp, x2, &self.w);
        cv.0
    }

    fn projection(&self, x: Vec<i64>, s: Vec<i64>) -> (r: Vec<i64>) {
        let g = self.grad(x);
        let d = vec_sub(&g, &s);
        self.conj_grad(d)
    }

    fn center(&self) -> (c: &Vec<i64>) {
        &self.center_pt
    }
}

} // verus!
