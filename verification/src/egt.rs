//! Nesterov's excessive gap technique over a pair of prox functions: a
//! saddle-point solver with a gap-preserving backtracking line search.

use crate::cfr::FX_HALF;
use crate::fx::{fx_mul, fx_neg, fx_sub, lemma_fmul_nonneg, FX_ONE, SCALE};
use crate::game::Game;
use crate::prox_func::{conj_val_s, conj_vec_s, grad_map_s, ProxFunction};
use crate::vecfx::{
    fdiv64, fmul64, fneg64, fsub64, map_div_s, map_interp_s, map_mul_s, map_neg_div_s,
    map_sub_s, vec_copy, vec_div, vec_interp, vec_mul, vec_neg_div,
};
use vstd::prelude::*;

verus! {

/// The two unrecoverable failures of the solver: the smoothing parameter
/// grew past its ceiling during initialization, or the backtracking step
/// size vanished.
#[derive(Debug, PartialEq, Eq, Structural, Clone, Copy)]
pub enum EgtError {
    MuLimitReached,
    TauVanished,
}

/// The starting smoothing parameter, about `1e-6`.
pub const MU_START: i64 = 4295;

/// The geometric growth factor applied while searching for a feasible
/// starting `mu`, about `1.2`.
pub const MU_GROWTH: i64 = 5153960755;

/// The ceiling on `mu` during initialization, `1e9` in fixed-point units.
pub const MU_LIMIT: i64 = 4294967296000000000;

/// The conjugate value of a prox function, written over its trait view.
pub open spec fn pf_conj_s<PF: ProxFunction>(pf: &PF, x: Seq<i64>) -> i64 {
    conj_val_s(pf.sp_s(), pf.w_s(), pf.c1_s(), pf.off_s(), x)
}

/// The conjugate gradient of a prox function, written over its trait view.
pub open spec fn pf_conj_grad_s<PF: ProxFunction>(pf: &PF, x: Seq<i64>) -> Seq<i64> {
    conj_vec_s(pf.sp_s(), pf.w_s(), pf.c1_s(), x)
}

/// The proximal projection of a prox function, written over its trait view.
pub open spec fn pf_proj_s<PF: ProxFunction>(pf: &PF, x: Seq<i64>, s: Seq<i64>) -> Seq<i64> {
    conj_vec_s(
        pf.sp_s(),
        pf.w_s(),
        pf.c1_s(),
        map_sub_s(grad_map_s(pf.c0_s(), pf.c1_s(), x), s),
    )
}

/// The excessive-gap certificate `phi(mu1) - f(mu2)` at a strategy pair:
/// `phi = -mu1 * conj_1(A y / -mu1)` and `f = mu2 * conj_2(At x / mu2)`.
pub open spec fn gap_s<PF: ProxFunction>(
    g: Game,
    pf1: &PF,
    pf2: &PF,
    x: Seq<i64>,
    y: Seq<i64>,
    mu1: i64,
    mu2: i64,
) -> i64 {
    let phi = fmul64(fneg64(mu1), pf_conj_s(pf1, map_neg_div_s(g.mat_a.dot_spec(y), mu1)));
    let f = fmul64(mu2, pf_conj_s(pf2, map_div_s(g.mat_a_t.dot_spec(x), mu2)));
    fsub64(phi, f)
}

/// The candidate pair taken from the centers at smoothing `(mu1, mu2)`.
pub open spec fn init_xy_s<PF: ProxFunction>(
    g: Game,
    pf1: &PF,
    pf2: &PF,
    mu1: i64,
    mu2: i64,
) -> (Seq<i64>, Seq<i64>) {
    let y = pf_conj_grad_s(pf2, map_div_s(g.mat_a_t.dot_spec(pf1.center_s()), mu2));
    let x = pf_proj_s(pf1, pf1.center_s(), map_div_s(g.mat_a.dot_spec(y), mu1));
    (x, y)
}

/// One shrink step on `mu1`: the first player's best response to the
/// smoothed second player, an interpolated query point, the second
/// player's fresh response, and a corrective projection scaled by
/// `tau / ((1 - tau) mu1)`.
pub open spec fn shrink1_s<PF: ProxFunction>(
    g: Game,
    pf1: &PF,
    pf2: &PF,
    x: Seq<i64>,
    y: Seq<i64>,
    mu1: i64,
    mu2: i64,
    tau: i64,
) -> (Seq<i64>, Seq<i64>, i64) {
    let x_opt = pf_conj_grad_s(pf1, map_neg_div_s(g.mat_a.dot_spec(y), mu1));
    let x_hat = map_interp_s(x, x_opt, tau);
    let y_opt = pf_conj_grad_s(pf2, map_div_s(g.mat_a_t.dot_spec(x_hat), mu2));
    let coef = fdiv64(tau, fmul64(fsub64(FX_ONE, tau), mu1));
    let x_tilde = pf_proj_s(pf1, x_opt, map_mul_s(g.mat_a.dot_spec(y_opt), coef));
    (
        map_interp_s(x, x_tilde, tau),
        map_interp_s(y, y_opt, tau),
        fmul64(fsub64(FX_ONE, tau), mu1),
    )
}

/// One shrink step on `mu2`, the mirror image of `shrink1_s`, with the
/// corrective projection scaled by `-tau / ((1 - tau) mu2)`.
pub open spec fn shrink2_s<PF: ProxFunction>(
    g: Game,
    pf1: &PF,
    pf2: &PF,
    x: Seq<i64>,
    y: Seq<i64>,
    mu1: i64,
    mu2: i64,
    tau: i64,
) -> (Seq<i64>, Seq<i64>, i64) {
    let y_opt = pf_conj_grad_s(pf2, map_div_s(g.mat_a_t.dot_spec(x), mu2));
    let y_hat = map_interp_s(y, y_opt, tau);
    let x_opt = pf_conj_grad_s(pf1, map_neg_div_s(g.mat_a.dot_spec(y_hat), mu1));
    let coef = fneg64(fdiv64(tau, fmul64(fsub64(FX_ONE, tau), mu2)));
    let y_tilde = pf_proj_s(pf2, y_opt, map_mul_s(g.mat_a_t.dot_spec(x_opt), coef));
    (
        map_interp_s(x, x_opt, tau),
        map_interp_s(y, y_tilde, tau),
        fmul64(fsub64(FX_ONE, tau), mu2),
    )
}

/// The excessive-gap solver: a game and one prox function per player.
pub struct EGT<'a, PF: ProxFunction> {
    pub game: &'a Game,
    pub pf1: &'a PF,
    pub pf2: &'a PF,
}

impl<'a, PF: ProxFunction> EGT<'a, PF> {
    /// Both prox functions well-formed and congruent with the game's two
    /// coordinate spaces.
    pub open spec fn wf(&self) -> bool {
        &&& self.game.wf()
        &&& self.pf1.wf()
        &&& self.pf2.wf()
        &&& self.pf1.sp_s().n() == self.game.sp1.n()
        &&& self.pf2.sp_s().n() == self.game.sp2.n()
    }

    pub fn new(game: &'a Game, pf1: &'a PF, pf2: &'a PF) -> (egt: EGT<'a, PF>)
        requires
            game.wf(),
            pf1.wf(),
            pf2.wf(),
            pf1.sp_s().n() == game.sp1.n(),
            pf2.sp_s().n() == game.sp2.n(),
        ensures
            egt.wf(),
            egt.game == game,
            egt.pf1 == pf1,
            egt.pf2 == pf2,
    {
        EGT { game, pf1, pf2 }
    }

    /// Computes the excessive-gap certificate at `(x, y, mu1, mu2)`.
    pub fn excessive_gap(&self, x: &Vec<i64>, y: &Vec<i64>, mu1: i64, mu2: i64) -> (r: i64)
        requires
            self.wf(),
            x@.len() == self.game.sp1.n(),
            y@.len() == self.game.sp2.n(),
            mu1 >= 0,
            mu2 >= 0,
        ensures
            r == gap_s(*self.game, self.pf1, self.pf2, x@, y@, mu1, mu2),
    {
        let ay = self.game.mat_a.dot(y);
        let c1v: i64 = self.pf1.conj(vec_neg_div(&ay, mu1));
        let phi: i64 = fx_mul(fx_neg(mu1), c1v);
        let atx = self.game.mat_a_t.dot(x);
        let c2v: i64 = self.pf2.conj(vec_div(&atx, mu2));
        let f: i64 = fx_mul(mu2, c2v);
        fx_sub(phi, f)
    }

    /// Builds the candidate pair from the first prox function's center.
    pub fn init(&self, mu1: i64, mu2: i64) -> (r: (Vec<i64>, Vec<i64>))
        requires
            self.wf(),
            mu1 >= 0,
            mu2 >= 0,
        ensures
            r.0@ == init_xy_s(*self.game, self.pf1, self.pf2, mu1, mu2).0,
            r.1@ == init_xy_s(*self.game, self.pf1, self.pf2, mu1, mu2).1,
            r.0@.len() == self.game.sp1.n(),
            r.1@.len() == self.game.sp2.n(),
    {
        let atc = self.game.mat_a_t.dot(self.pf1.center());
        let y = self.pf2.conj_grad(vec_div(&atc, mu2));
        let ay = self.game.mat_a.dot(&y);
        let x = self.pf1.projection(vec_copy(self.pf1.center()), vec_div(&ay, mu1));
        (x, y)
    }

    /// One shrink step on `mu1`, returning the new pair and `(1 - tau) mu1`.
    fn shrink_mu1(
        &self,
        x: &Vec<i64>,
        y: &Vec<i64>,
        mu1: i64,
        mu2: i64,
        tau: i64,
    ) -> (r: (Vec<i64>, Vec<i64>, i64))
        requires
            self.wf(),
            x@.len() == self.game.sp1.n(),
            y@.len() == self.game.sp2.n(),
            mu1 >= 0,
            mu2 >= 0,
            0 <= tau <= FX_ONE,
        ensures
            (r.0@, r.1@, r.2) == shrink1_s(*self.game, self.pf1, self.pf2, x@, y@, mu1, mu2, tau),
            r.0@.len() == self.game.sp1.n(),
            r.1@.len() == self.game.sp2.n(),
            r.2 >= 0,
    {
        let ay = self.game.mat_a.dot(y);
        let x_opt = self.pf1.conj_grad(vec_neg_div(&ay, mu1));
        let x_hat = vec_interp(x, &x_opt, tau);
        let at_xhat = self.game.mat_a_t.dot(&x_hat);
        let y_opt = self.pf2.conj_grad(vec_div(&at_xhat, mu2));
        let omt: i64 = fx_sub(FX_ONE, tau);
        let denom: i64 = fx_mul(omt, mu1);
        proof {
            lemma_fmul_nonneg(omt as int, mu1 as int);
        }
        let coef: i64 = crate::fx::fx_div(tau, denom);
        let a_yopt = self.game.mat_a.dot(&y_opt);
        let x_tilde = self.pf1.projection(x_opt, vec_mul(&a_yopt, coef));
        let nx = vec_interp(x, &x_tilde, tau);
        let ny = vec_interp(y, &y_opt, tau);
        let nmu: i64 = fx_mul(omt, mu1);
        (nx, ny, nmu)
    }

    /// One shrink step on `mu2`, returning the new pair and `(1 - tau) mu2`.
    fn shrink_mu2(
        &self,
        x: &Vec<i64>,
        y: &Vec<i64>,
        mu1: i64,
        mu2: i64,
        tau: i64,
    ) -> (r: (Vec<i64>, Vec<i64>, i64))
        requires
            self.wf(),
            x@.len() == self.game.sp1.n(),
            y@.len() == self.game.sp2.n(),
            mu1 >= 0,
            mu2 >= 0,
            0 <= tau <= FX_ONE,
        ensures
            (r.0@, r.1@, r.2) == shrink2_s(*self.game, self.pf1, self.pf2, x@, y@, mu1, mu2, tau),
            r.0@.len() == self.game.sp1.n(),
            r.1@.len() == self.game.sp2.n(),
            r.2 >= 0,
    {
        let atx = self.game.mat_a_t.dot(x);
        let y_opt = self.pf2.conj_grad(vec_div(&atx, mu2));
        let y_hat = vec_interp(y, &y_opt, tau);
        let a_yhat = self.game.mat_a.dot(&y_hat);
        let x_opt = self.pf1.conj_grad(vec_neg_div(&a_yhat, mu1));
        let omt: i64 = fx_sub(FX_ONE, tau);
        let denom: i64 = fx_mul(omt, mu2);
        proof {
            lemma_fmul_nonneg(omt as int, mu2 as int);
        }
        let coef: i64 = fx_neg(crate::fx::fx_div(tau, denom));
        let at_xopt = self.game.mat_a_t.dot(&x_opt);
        let y_tilde = self.pf2.projection(y_opt, vec_mul(&at_xopt, coef));
        let nx = vec_interp(x, &x_opt, tau);
        let ny = vec_interp(y, &y_tilde, tau);
        let nmu: i64 = fx_mul(omt, mu2);
        (nx, ny, nmu)
    }
}

/// The successful smoothing parameter found by growing `mu` geometrically
/// from `mu` until the excessive-gap certificate holds, or nothing if `mu`
/// reaches `MU_LIMIT` first.
pub open spec fn init_search_s<PF: ProxFunction>(g: Game, pf1: &PF, pf2: &PF, mu: i64) -> Option<
    i64,
>
    decreases MU_LIMIT - mu,
        when MU_START <= mu
        via init_search_dec::<PF>
{
    let xy = init_xy_s(g, pf1, pf2, mu, mu);
    if gap_s(g, pf1, pf2, xy.0, xy.1, mu, mu) > 0 {
        Some(mu)
    } else {
        let nmu = fmul64(mu, MU_GROWTH);
        if nmu >= MU_LIMIT {
            None
        } else {
            init_search_s(g, pf1, pf2, nmu)
        }
    }
}

#[via_fn]
proof fn init_search_dec<PF: ProxFunction>(g: Game, pf1: &PF, pf2: &PF, mu: i64) {
    if MU_START <= mu && mu < MU_LIMIT {
        assert((mu as int * MU_GROWTH as int) / (SCALE as int) >= mu + 1) by (nonlinear_arith)
            requires
                4295 <= mu,
                MU_GROWTH == 5153960755,
                SCALE == 0x1_0000_0000,
        ;
    }
}

/// The backtracking line search that shrinks `mu1`: halve `tau` until the
/// certificate validates the shrink step, or fail once `tau` underflows to
/// zero.
pub open spec fn backtrack1_s<PF: ProxFunction>(
    g: Game,
    pf1: &PF,
    pf2: &PF,
    x: Seq<i64>,
    y: Seq<i64>,
    mu1: i64,
    mu2: i64,
    tau: i64,
) -> Option<(Seq<i64>, Seq<i64>, i64, i64)>
    decreases tau,
        when 0 <= tau
        via backtrack1_dec::<PF>
{
    let s = shrink1_s(g, pf1, pf2, x, y, mu1, mu2, tau);
    if gap_s(g, pf1, pf2, s.0, s.1, s.2, mu2) > 0 {
        Some((s.0, s.1, s.2, tau))
    } else {
        let t2 = fmul64(tau, FX_HALF);
        if t2 == 0 {
            None
        } else {
            backtrack1_s(g, pf1, pf2, x, y, mu1, mu2, t2)
        }
    }
}

#[via_fn]
proof fn backtrack1_dec<PF: ProxFunction>(
    g: Game,
    pf1: &PF,
    pf2: &PF,
    x: Seq<i64>,
    y: Seq<i64>,
    mu1: i64,
    mu2: i64,
    tau: i64,
) {
    if 0 <= tau {
        assert(0 <= (tau as int * FX_HALF as int) / (SCALE as int) <= tau as int / 2)
            by (nonlinear_arith)
            requires
                0 <= tau,
                FX_HALF == 0x8000_0000,
                SCALE == 0x1_0000_0000,
        ;
    }
}

/// The symmetric backtracking line search that shrinks `mu2`.
pub open spec fn backtrack2_s<PF: ProxFunction>(
    g: Game,
    pf1: &PF,
    pf2: &PF,
    x: Seq<i64>,
    y: Seq<i64>,
    mu1: i64,
    mu2: i64,
    tau: i64,
) -> Option<(Seq<i64>, Seq<i64>, i64, i64)>
    decreases tau,
        when 0 <= tau
        via backtrack2_dec::<PF>
{
    let s = shrink2_s(g, pf1, pf2, x, y, mu1, mu2, tau);
    if gap_s(g, pf1, pf2, s.0, s.1, mu1, s.2) > 0 {
        Some((s.0, s.1, s.2, tau))
    } else {
        let t2 = fmul64(tau, FX_HALF);
        if t2 == 0 {
            None
        } else {
            backtrack2_s(g, pf1, pf2, x, y, mu1, mu2, t2)
        }
    }
}

#[via_fn]
proof fn backtrack2_dec<PF: ProxFunction>(
    g: Game,
    pf1: &PF,
    pf2: &PF,
    x: Seq<i64>,
    y: Seq<i64>,
    mu1: i64,
    mu2: i64,
    tau: i64,
) {
    if 0 <= tau {
        assert(0 <= (tau as int * FX_HALF as int) / (SCALE as int) <= tau as int / 2)
            by (nonlinear_arith)
            requires
                0 <= tau,
                FX_HALF == 0x8000_0000,
                SCALE == 0x1_0000_0000,
        ;
    }
}

/// The excessive-gap certificate holds at every state the first
/// backtracking search accepts: whenever the search over a shrink of `mu1`
/// returns a new `(x, y, mu1)`, the certificate at that state against the
/// unchanged `mu2` is strictly positive.
pub proof fn lemma_backtrack1_certificate<PF: ProxFunction>(
    g: Game,
    pf1: &PF,
    pf2: &PF,
    x: Seq<i64>,
    y: Seq<i64>,
    mu1: i64,
    mu2: i64,
    tau: i64,
)
    requires
        0 <= tau,
    ensures
        ({
            let r = backtrack1_s(g, pf1, pf2, x, y, mu1, mu2, tau);
            r.is_some() ==> gap_s(g, pf1, pf2, r.unwrap().0, r.unwrap().1, r.unwrap().2, mu2)
                > 0
        }),
    decreases tau,
{
    let s = shrink1_s(g, pf1, pf2, x, y, mu1, mu2, tau);
    if gap_s(g, pf1, pf2, s.0, s.1, s.2, mu2) > 0 {
    } else {
        let t2 = fmul64(tau, FX_HALF);
        assert(0 <= (tau as int * FX_HALF as int) / (SCALE as int) <= tau as int / 2)
            by (nonlinear_arith)
            requires
                0 <= tau,
                FX_HALF == 0x8000_0000,
                SCALE == 0x1_0000_0000,
        ;
        if t2 != 0 {
            lemma_backtrack1_certificate(g, pf1, pf2, x, y, mu1, mu2, t2);
        }
    }
}

/// The symmetric certificate law for the search that shrinks `mu2`.
pub proof fn lemma_backtrack2_certificate<PF: ProxFunction>(
    g: Game,
    pf1: &PF,
    pf2: &PF,
    x: Seq<i64>,
    y: Seq<i64>,
    mu1: i64,
    mu2: i64,
    tau: i64,
)
    requires
        0 <= tau,
    ensures
        ({
            let r = backtrack2_s(g, pf1, pf2, x, y, mu1, mu2, tau);
            r.is_some() ==> gap_s(g, pf1, pf2, r.unwrap().0, r.unwrap().1, mu1, r.unwrap().2)
                > 0
        }),
    decreases tau,
{
    let s = shrink2_s(g, pf1, pf2, x, y, mu1, mu2, tau);
    if gap_s(g, pf1, pf2, s.0, s.1, mu1, s.2) > 0 {
    } else {
        let t2 = fmul64(tau, FX_HALF);
        assert(0 <= (tau as int * FX_HALF as int) / (SCALE as int) <= tau as int / 2)
            by (nonlinear_arith)
            requires
                0 <= tau,
                FX_HALF == 0x8000_0000,
                SCALE == 0x1_0000_0000,
        ;
        if t2 != 0 {
            lemma_backtrack2_certificate(g, pf1, pf2, x, y, mu1, mu2, t2);
        }
    }
}

/// The certificate also holds at the state initialization accepts.
pub proof fn lemma_init_certificate<PF: ProxFunction>(g: Game, pf1: &PF, pf2: &PF, mu: i64)
    requires
        MU_START <= mu,
    ensures
        ({
            let r = init_search_s(g, pf1, pf2, mu);
            r.is_some() ==> {
                let m = r.unwrap();
                let xy = init_xy_s(g, pf1, pf2, m, m);
                gap_s(g, pf1, pf2, xy.0, xy.1, m, m) > 0
            }
        }),
    decreases MU_LIMIT - mu,
{
    let xy = init_xy_s(g, pf1, pf2, mu, mu);
    if gap_s(g, pf1, pf2, xy.0, xy.1, mu, mu) > 0 {
    } else {
        let nmu = fmul64(mu, MU_GROWTH);
        assert((mu as int * MU_GROWTH as int) / (SCALE as int) >= mu + 1) by (nonlinear_arith)
            requires
                4295 <= mu,
                MU_GROWTH == 5153960755,
                SCALE == 0x1_0000_0000,
        ;
        if nmu < MU_LIMIT {
            lemma_init_certificate(g, pf1, pf2, nmu);
        }
    }
}

/// A ghost snapshot of the excessive-gap solver state.
#[verifier::ext_equal]
pub struct EgtSnap {
    pub x: Seq<i64>,
    pub y: Seq<i64>,
    pub mu1: i64,
    pub mu2: i64,
    pub tau: i64,
    pub err: Seq<i64>,
}

/// The solver state after initialization and iterations `1 .. t`: each
/// iteration applies the backtracking shrink to whichever smoothing
/// parameter is larger and records the exploitability of the new pair.
pub open spec fn egt_run_s<PF: ProxFunction>(g: Game, pf1: &PF, pf2: &PF, t: int) -> Result<
    EgtSnap,
    EgtError,
>
    decreases t,
{
    if t <= 1 {
        match init_search_s(g, pf1, pf2, MU_START) {
            Option::None => Result::Err(EgtError::MuLimitReached),
            Option::Some(mu) => {
                let xy = init_xy_s(g, pf1, pf2, mu, mu);
                Result::Ok(
                    EgtSnap {
                        x: xy.0,
                        y: xy.1,
                        mu1: mu,
                        mu2: mu,
                        tau: FX_HALF,
                        err: Seq::empty().push(g.error_s(xy.0, xy.1)),
                    },
                )
            },
        }
    } else {
        match egt_run_s(g, pf1, pf2, t - 1) {
            Result::Err(e) => Result::Err(e),
            Result::Ok(st) => {
                if st.mu1 > st.mu2 {
                    match backtrack1_s(g, pf1, pf2, st.x, st.y, st.mu1, st.mu2, st.tau) {
                        Option::None => Result::Err(EgtError::TauVanished),
                        Option::Some(nz) => Result::Ok(
                            EgtSnap {
                                x: nz.0,
                                y: nz.1,
                                mu1: nz.2,
                                mu2: st.mu2,
                                tau: nz.3,
                                err: st.err.push(g.error_s(nz.0, nz.1)),
                            },
                        ),
                    }
                } else {
                    match backtrack2_s(g, pf1, pf2, st.x, st.y, st.mu1, st.mu2, st.tau) {
                        Option::None => Result::Err(EgtError::TauVanished),
                        Option::Some(nz) => Result::Ok(
                            EgtSnap {
                                x: nz.0,
                                y: nz.1,
                                mu1: st.mu1,
                                mu2: nz.2,
                                tau: nz.3,
                                err: st.err.push(g.error_s(nz.0, nz.1)),
                            },
                        ),
                    }
                }
            },
        }
    }
}

/// Once a run has failed, every longer run fails the same way.
proof fn lemma_run_err_mono<PF: ProxFunction>(g: Game, pf1: &PF, pf2: &PF, t1: int, t2: int)
    requires
        1 <= t1 <= t2,
        egt_run_s(g, pf1, pf2, t1).is_err(),
    ensures
        egt_run_s(g, pf1, pf2, t2) == egt_run_s(g, pf1, pf2, t1),
    decreases t2 - t1,
{
    if t1 < t2 {
        lemma_run_err_mono(g, pf1, pf2, t1, t2 - 1);
    }
}

impl<'a, PF: ProxFunction> EGT<'a, PF> {
    /// Searches for the smallest feasible starting `mu` by geometric
    /// growth; fails if `mu` reaches `MU_LIMIT` without the certificate
    /// holding.
    pub fn initialize(&self) -> (r: Result<(Vec<i64>, Vec<i64>, i64), EgtError>)
        requires
            self.wf(),
        ensures
            ({
                let s = init_search_s(*self.game, self.pf1, self.pf2, MU_START);
                match r {
                    Result::Ok(t) => {
                        &&& s == Some(t.2)
                        &&& MU_START <= t.2 < MU_LIMIT
                        &&& t.0@ == init_xy_s(*self.game, self.pf1, self.pf2, t.2, t.2).0
                        &&& t.1@ == init_xy_s(*self.game, self.pf1, self.pf2, t.2, t.2).1
                        &&& t.0@.len() == self.game.sp1.n()
                        &&& t.1@.len() == self.game.sp2.n()
                    },
                    Result::Err(e) => s.is_none() && e == EgtError::MuLimitReached,
                }
            }),
    {
        let mut mu: i64 = MU_START;
        loop
            invariant
                self.wf(),
                MU_START <= mu < MU_LIMIT,
                init_search_s(*self.game, self.pf1, self.pf2, MU_START) == init_search_s(
                    *self.game,
                    self.pf1,
                    self.pf2,
                    mu,
                ),
            decreases MU_LIMIT - mu,
        {
            let xy = self.init(mu, mu);
            let gp: i64 = self.excessive_gap(&xy.0, &xy.1, mu, mu);
            if gp > 0 {
                return Result::Ok((xy.0, xy.1, mu));
            }
            let nmu: i64 = fx_mul(mu, MU_GROWTH);
            proof {
                assert((mu as int * MU_GROWTH as int) / (SCALE as int) >= mu + 1)
                    by (nonlinear_arith)
                    requires
                        4295 <= mu,
                        MU_GROWTH == 5153960755,
                        SCALE == 0x1_0000_0000,
                ;
            }
            if nmu >= MU_LIMIT {
                return Result::Err(EgtError::MuLimitReached);
            }
            mu = nmu;
        }
    }

    /// Shrink `mu1` with backtracking: halve `tau` until the certificate
    /// validates the step, failing if `tau` underflows to zero.
    pub fn decrease_mu1(
        &self,
        x: &Vec<i64>,
        y: &Vec<i64>,
        mu1: i64,
        mu2: i64,
        tau: i64,
    ) -> (r: Result<(Vec<i64>, Vec<i64>, i64, i64), EgtError>)
        requires
            self.wf(),
            x@.len() == self.game.sp1.n(),
            y@.len() == self.game.sp2.n(),
            mu1 >= 0,
            mu2 >= 0,
            0 <= tau <= FX_ONE,
        ensures
            ({
                let s = backtrack1_s(*self.game, self.pf1, self.pf2, x@, y@, mu1, mu2, tau);
                match r {
                    Result::Ok(t) => {
                        &&& s == Some((t.0@, t.1@, t.2, t.3))
                        &&& t.0@.len() == self.game.sp1.n()
                        &&& t.1@.len() == self.game.sp2.n()
                        &&& t.2 >= 0
                        &&& 0 <= t.3 <= tau
                    },
                    Result::Err(e) => s.is_none() && e == EgtError::TauVanished,
                }
            }),
    {
        let mut t: i64 = tau;
        loop
            invariant
                self.wf(),
                x@.len() == self.game.sp1.n(),
                y@.len() == self.game.sp2.n(),
                mu1 >= 0,
                mu2 >= 0,
                0 <= t <= tau <= FX_ONE,
                backtrack1_s(*self.game, self.pf1, self.pf2, x@, y@, mu1, mu2, tau)
                    == backtrack1_s(*self.game, self.pf1, self.pf2, x@, y@, mu1, mu2, t),
            decreases t,
        {
            let s = self.shrink_mu1(x, y, mu1, mu2, t);
            let gp: i64 = self.excessive_gap(&s.0, &s.1, s.2, mu2);
            if gp > 0 {
                return Result::Ok((s.0, s.1, s.2, t));
            }
            let t2: i64 = fx_mul(t, FX_HALF);
            proof {
                assert(0 <= (t as int * FX_HALF as int) / (SCALE as int) <= t as int / 2)
                    by (nonlinear_arith)
                    requires
                        0 <= t,
                        FX_HALF == 0x8000_0000,
                        SCALE == 0x1_0000_0000,
                ;
            }
            if t2 == 0 {
                return Result::Err(EgtError::TauVanished);
            }
            t = t2;
        }
    }

    /// Shrink `mu2` with backtracking, the mirror image of `decrease_mu1`.
    pub fn decrease_mu2(
        &self,
        x: &Vec<i64>,
        y: &Vec<i64>,
        mu1: i64,
        mu2: i64,
        tau: i64,
    ) -> (r: Result<(Vec<i64>, Vec<i64>, i64, i64), EgtError>)
        requires
            self.wf(),
            x@.len() == self.game.sp1.n(),
            y@.len() == self.game.sp2.n(),
            mu1 >= 0,
            mu2 >= 0,
            0 <= tau <= FX_ONE,
        ensures
            ({
                let s = backtrack2_s(*self.game, self.pf1, self.pf2, x@, y@, mu1, mu2, tau);
                match r {
                    Result::Ok(t) => {
                        &&& s == Some((t.0@, t.1@, t.2, t.3))
                        &&& t.0@.len() == self.game.sp1.n()
                        &&& t.1@.len() == self.game.sp2.n()
                        &&& t.2 >= 0
                        &&& 0 <= t.3 <= tau
                    },
                    Result::Err(e) => s.is_none() && e == EgtError::TauVanished,
                }
            }),
    {
        let mut t: i64 = tau;
        loop
            invariant
                self.wf(),
                x@.len() == self.game.sp1.n(),
                y@.len() == self.game.sp2.n(),
                mu1 >= 0,
                mu2 >= 0,
                0 <= t <= tau <= FX_ONE,
                backtrack2_s(*self.game, self.pf1, self.pf2, x@, y@, mu1, mu2, tau)
                    == backtrack2_s(*self.game, self.pf1, self.pf2, x@, y@, mu1, mu2, t),
            decreases t,
        {
            let s = self.shrink_mu2(x, y, mu1, mu2, t);
            let gp: i64 = self.excessive_gap(&s.0, &s.1, mu1, s.2);
            if gp > 0 {
                return Result::Ok((s.0, s.1, s.2, t));
            }
            let t2: i64 = fx_mul(t, FX_HALF);
            proof {
                assert(0 <= (t as int * FX_HALF as int) / (SCALE as int) <= t as int / 2)
                    by (nonlinear_arith)
                    requires
                        0 <= t,
                        FX_HALF == 0x8000_0000,
                        SCALE == 0x1_0000_0000,
                ;
            }
            if t2 == 0 {
                return Result::Err(EgtError::TauVanished);
            }
            t = t2;
        }
    }

    /// One outer iteration: shrink whichever smoothing parameter is
    /// larger, record the exploitability of the new pair, and hand back the
    /// advanced state.
    fn run_step(
        &self,
        x: Vec<i64>,
        y: Vec<i64>,
        mu1: i64,
        mu2: i64,
        tau: i64,
        err: Vec<i64>,
        k: Ghost<int>,
    ) -> (r: Result<(Vec<i64>, Vec<i64>, i64, i64, i64, Vec<i64>), EgtError>)
        requires
            self.wf(),
            x@.len() == self.game.sp1.n(),
            y@.len() == self.game.sp2.n(),
            mu1 >= 0,
            mu2 >= 0,
            0 <= tau <= FX_ONE,
            1 <= k@,
            egt_run_s(*self.game, self.pf1, self.pf2, k@) == Result::<EgtSnap, EgtError>::Ok(
                EgtSnap { x: x@, y: y@, mu1, mu2, tau, err: err@ },
            ),
        ensures
            ({
                match r {
                    Result::Ok(t) => {
                        &&& egt_run_s(*self.game, self.pf1, self.pf2, k@ + 1) == Result::<
                            EgtSnap,
                            EgtError,
                        >::Ok(EgtSnap { x: t.0@, y: t.1@, mu1: t.2, mu2: t.3, tau: t.4, err: t.5@ })
                        &&& t.0@.len() == self.game.sp1.n()
                        &&& t.1@.len() == self.game.sp2.n()
                        &&& t.2 >= 0
                        &&& t.3 >= 0
                        &&& 0 <= t.4 <= FX_ONE
                    },
                    Result::Err(e) => egt_run_s(*self.game, self.pf1, self.pf2, k@ + 1)
                        == Result::<EgtSnap, EgtError>::Err(e),
                }
            }),
    {
        let ghost g = *self.game;
        let ghost pre = EgtSnap { x: x@, y: y@, mu1, mu2, tau, err: err@ };
        let mut err = err;
        if mu1 > mu2 {
            match self.decrease_mu1(&x, &y, mu1, mu2, tau) {
                Result::Err(e) => Result::Err(e),
                Result::Ok(t) => {
                    let e0: i64 = self.game.error(&t.0, &t.1);
                    err.push(e0);
                    proof {
                        let snap = EgtSnap {
                            x: t.0@,
                            y: t.1@,
                            mu1: t.2,
                            mu2,
                            tau: t.3,
                            err: err@,
                        };
                        assert(snap =~~= EgtSnap {
                            x: t.0@,
                            y: t.1@,
                            mu1: t.2,
                            mu2: pre.mu2,
                            tau: t.3,
                            err: pre.err.push(g.error_s(t.0@, t.1@)),
                        });
                    }
                    Result::Ok((t.0, t.1, t.2, mu2, t.3, err))
                },
            }
        } else {
            match self.decrease_mu2(&x, &y, mu1, mu2, tau) {
                Result::Err(e) => Result::Err(e),
                Result::Ok(t) => {
                    let e0: i64 = self.game.error(&t.0, &t.1);
                    err.push(e0);
                    proof {
                        let snap = EgtSnap {
                            x: t.0@,
                            y: t.1@,
                            mu1,
                            mu2: t.2,
                            tau: t.3,
                            err: err@,
                        };
                        assert(snap =~~= EgtSnap {
                            x: t.0@,
                            y: t.1@,
                            mu1: pre.mu1,
                            mu2: t.2,
                            tau: t.3,
                            err: pre.err.push(g.error_s(t.0@, t.1@)),
                        });
                    }
                    Result::Ok((t.0, t.1, mu1, t.2, t.3, err))
                },
            }
        }
    }

    /// Runs the solver for `step` iterations: after initialization, each
    /// iteration shrinks whichever smoothing parameter is larger and
    /// records the exploitability of the new pair. The two fatal outcomes
    /// surface as errors.
    #[verifier::spinoff_prover]
    #[verifier::rlimit(100)]
    pub fn run(&self, step: usize) -> (r: Result<(Vec<i64>, Vec<i64>, Vec<i64>), EgtError>)
        requires
            self.wf(),
            1 <= step,
        ensures
            ({
                match egt_run_s(*self.game, self.pf1, self.pf2, step as int) {
                    Result::Ok(st) => {
                        &&& r.is_ok()
                        &&& r.unwrap().0@ == st.x
                        &&& r.unwrap().1@ == st.y
                        &&& r.unwrap().2@ == st.err
                    },
                    Result::Err(e) => r == Result::<(Vec<i64>, Vec<i64>, Vec<i64>),
                        EgtError,
                    >::Err(e),
                }
            }),
    {
        let ghost g = *self.game;
        let ini = self.initialize();
        let (mut x, mut y, mu): (Vec<i64>, Vec<i64>, i64) = match ini {
            Result::Err(e) => {
                proof {
                    lemma_run_err_mono(g, self.pf1, self.pf2, 1, step as int);
                }
                return Result::Err(e);
            },
            Result::Ok(t) => t,
        };
        let mut mu1: i64 = mu;
        let mut mu2: i64 = mu;
        let mut tau: i64 = FX_HALF;
        let mut err: Vec<i64> = Vec::new();
        err.push(self.game.error(&x, &y));
        proof {
            let st1 = egt_run_s(g, self.pf1, self.pf2, 1).unwrap();
            assert(st1 =~~= EgtSnap { x: x@, y: y@, mu1, mu2, tau, err: err@ });
        }
        let mut k: usize = 1;
        while k < step
            invariant
                self.wf(),
                1 <= k <= step,
                x@.len() == self.game.sp1.n(),
                y@.len() == self.game.sp2.n(),
                mu1 >= 0,
                mu2 >= 0,
                0 <= tau <= FX_ONE,
                egt_run_s(*self.game, self.pf1, self.pf2, k as int) == Result::<
                    EgtSnap,
                    EgtError,
                >::Ok(EgtSnap { x: x@, y: y@, mu1, mu2, tau, err: err@ }),
            decreases step - k,
        {
            match self.run_step(x, y, mu1, mu2, tau, err, Ghost(k as int)) {
                Result::Err(e) => {
                    proof {
                        assert(egt_run_s(*self.game, self.pf1, self.pf2, k as int + 1)
                            == Result::<EgtSnap, EgtError>::Err(e));
                        lemma_run_err_mono(
                            *self.game,
                            self.pf1,
                            self.pf2,
                            k as int + 1,
                            step as int,
                        );
                        assert(egt_run_s(*self.game, self.pf1, self.pf2, step as int)
                            == Result::<EgtSnap, EgtError>::Err(e));
                    }
                    return Result::Err(e);
                },
                Result::Ok(t) => {
                    x = t.0;
                    y = t.1;
                    mu1 = t.2;
                    mu2 = t.3;
                    tau = t.4;
                    err = t.5;
                },
            }
            k = k + 1;
        }
        proof {
            assert(egt_run_s(*self.game, self.pf1, self.pf2, step as int) == Result::<
                EgtSnap,
                EgtError,
            >::Ok(EgtSnap { x: x@, y: y@, mu1, mu2, tau, err: err@ }));
        }
        Result::Ok((x, y, err))
    }
}

} // verus!
