use egt_on_efg::cfr::{cfr, cfr_init, cfr_plus, cfr_plus_round};
use egt_on_efg::egt::{EgtError, EGT};
use egt_on_efg::fx::{FX_ONE, SCALE};
use egt_on_efg::game::{Game, StrategyPolytope};
use egt_on_efg::prox_func::{conj, prox_weights, Centering, Farina2021, Normal, ProxFunction};

fn to_f64(v: i64) -> f64 {
    v as f64 / SCALE as f64
}

fn from_f64(v: f64) -> i64 {
    (v * SCALE as f64).round() as i64
}

fn fxv(vals: &[f64]) -> Vec<i64> {
    vals.iter().map(|&v| from_f64(v)).collect()
}

fn simplex_pol() -> StrategyPolytope {
    StrategyPolytope { par: vec![0], idx: vec![1, 3] }
}

fn pennies_game() -> Game {
    let sp1 = simplex_pol();
    let sp2 = simplex_pol();
    let row: Vec<usize> = vec![1, 1, 2, 2];
    let col: Vec<usize> = vec![1, 2, 1, 2];
    let dat: Vec<i64> = vec![FX_ONE, -FX_ONE, -FX_ONE, FX_ONE];
    Game::new(sp1, sp2, &row, &col, &dat)
}

/// An asymmetric 2x2 zero-sum game whose unique equilibrium is mixed; its
/// uniform-strategy value is nonzero, so the excessive-gap certificate is
/// strictly satisfiable.
fn asym_game() -> Game {
    let sp1 = simplex_pol();
    let sp2 = simplex_pol();
    let row: Vec<usize> = vec![1, 1, 2, 2];
    let col: Vec<usize> = vec![1, 2, 1, 2];
    let dat: Vec<i64> = vec![3 * FX_ONE, -FX_ONE, -FX_ONE, FX_ONE];
    Game::new(sp1, sp2, &row, &col, &dat)
}

/// The same 2x2 payoff over the flat encoding where the root coordinate
/// shares the owned range.
fn flat_pennies_game() -> Game {
    let sp1 = StrategyPolytope { par: vec![0], idx: vec![0, 2] };
    let sp2 = StrategyPolytope { par: vec![0], idx: vec![0, 2] };
    let row: Vec<usize> = vec![0, 0, 1, 1];
    let col: Vec<usize> = vec![0, 1, 0, 1];
    let dat: Vec<i64> = vec![FX_ONE, -FX_ONE, -FX_ONE, FX_ONE];
    Game::new(sp1, sp2, &row, &col, &dat)
}

#[test]
fn cfr_first_trace_entry_is_exact() {
    let g = flat_pennies_game();
    let (_x, _y, err) = cfr(&g, 2);
    // the initial pure-vs-pure pair has exploitability exactly 2
    assert_eq!(err[0], 2 * SCALE);
}

#[test]
fn cfr_converges_on_pennies() {
    let g = pennies_game();
    let (x, y, err) = cfr(&g, 200);
    let best = err.iter().map(|&e| to_f64(e)).fold(f64::INFINITY, f64::min);
    assert!(best < 1e-3, "best error {}", best);
    // the averaged strategies approach the uniform equilibrium
    assert!((to_f64(x[1]) - 0.5).abs() < 0.1);
    assert!((to_f64(y[1]) - 0.5).abs() < 0.1);
}

#[test]
fn cfr_plus_converges_on_pennies() {
    let g = pennies_game();
    let (x, y, err) = cfr_plus(&g, 200);
    let best = err.iter().map(|&e| to_f64(e)).fold(f64::INFINITY, f64::min);
    assert!(best < 1e-3, "best error {}", best);
    assert!((to_f64(x[1]) - 0.5).abs() < 0.1);
    assert!((to_f64(y[1]) - 0.5).abs() < 0.1);
}

#[test]
fn cfr_reduces_error_on_flat_pennies() {
    // the flat encoding converges slowly; the averaged error still falls
    // well below the initial exploitability of 2
    let g = flat_pennies_game();
    let (_x, _y, err) = cfr(&g, 400);
    let best = err.iter().map(|&e| to_f64(e)).fold(f64::INFINITY, f64::min);
    assert!(best < 0.2, "best error {}", best);
}

#[test]
fn cfr_plus_converges_on_asymmetric_game() {
    let g = asym_game();
    let (_x, _y, err) = cfr_plus(&g, 200);
    let best = err.iter().map(|&e| to_f64(e)).fold(f64::INFINITY, f64::min);
    assert!(best < 0.02, "best error {}", best);
}

#[test]
fn cfr_plus_regrets_stay_nonnegative() {
    let g = pennies_game();
    let mut st = cfr_init(&g);
    let mut k: usize = 1;
    while k <= 5 {
        cfr_plus_round(&g, &mut st, k);
        for v in &st.regret_x {
            assert!(*v >= 0);
        }
        for v in &st.regret_y {
            assert!(*v >= 0);
        }
        k += 1;
    }
}

#[test]
fn kernel_at_origin_is_ln2() {
    // the raw conjugate of the binary simplex at the origin is the entropy
    // maximum ln 2
    let sp = simplex_pol();
    let (w, _ws) = prox_weights(&sp);
    let zeros: Vec<i64> = vec![0, 0, 0];
    let (_grad, val) = conj(&sp, zeros, &w);
    assert!((to_f64(val) - std::f64::consts::LN_2).abs() < 1e-6);
}

#[test]
fn normal_conj_vanishes_at_origin() {
    let sp = simplex_pol();
    let pf = Normal::new(&sp);
    let v = pf.conj(vec![0, 0, 0]);
    assert!(to_f64(v).abs() < 1e-6);
}

#[test]
fn normal_center_is_uniform_on_simplex() {
    let sp = simplex_pol();
    let pf = Normal::new(&sp);
    let c = pf.center();
    assert_eq!(c[0], FX_ONE);
    assert!((to_f64(c[1]) - 0.5).abs() < 1e-6);
    assert!((to_f64(c[2]) - 0.5).abs() < 1e-6);
}

#[test]
fn conjugate_round_trip_on_interior_point() {
    // conj_grad(grad(x)) recovers x for interior points, within 1e-6
    let sp = simplex_pol();
    let pf = Normal::new(&sp);
    let x = fxv(&[1.0, 0.3, 0.7]);
    let g = pf.grad(x.clone());
    let xr = pf.conj_grad(g);
    for j in 0..3 {
        assert!((to_f64(xr[j]) - to_f64(x[j])).abs() < 1e-6, "coord {}", j);
    }
}

#[test]
fn conjugate_round_trip_other_direction() {
    // grad(conj_grad(s)) recovers s for gradients of interior points
    let sp = simplex_pol();
    let pf = Normal::new(&sp);
    let s = pf.grad(fxv(&[1.0, 0.25, 0.75]));
    let x = pf.conj_grad(s.clone());
    let sr = pf.grad(x);
    for j in 0..3 {
        assert!((to_f64(sr[j]) - to_f64(s[j])).abs() < 1e-6, "coord {}", j);
    }
}

#[test]
fn centering_gradient_vanishes_at_center() {
    // re-anchoring: the gradient at the supplied center is exactly zero
    let sp = simplex_pol();
    let pf = Centering::new(&sp, fxv(&[1.0, 0.3, 0.7]));
    let g = pf.grad(fxv(&[1.0, 0.3, 0.7]));
    for v in &g {
        assert_eq!(*v, 0);
    }
}

#[test]
fn centering_conj_round_trip_keeps_center() {
    let sp = simplex_pol();
    let cen = fxv(&[1.0, 0.4, 0.6]);
    let pf = Centering::new(&sp, cen.clone());
    let g = pf.grad(cen.clone());
    let xr = pf.conj_grad(g);
    for j in 0..3 {
        assert!((to_f64(xr[j]) - to_f64(cen[j])).abs() < 1e-6);
    }
}

#[test]
fn farina_center_is_uniform_with_zero_conj() {
    let sp = simplex_pol();
    let pf = Farina2021::new(&sp).expect("self-consistency check");
    let c = pf.center();
    assert!((to_f64(c[1]) - 0.5).abs() < 1e-6);
    assert!((to_f64(c[2]) - 0.5).abs() < 1e-6);
    let v = pf.conj(fxv(&[0.0, 0.0, 0.0]));
    // the Farina conjugate at the shifted origin stays near zero
    assert!(to_f64(v).abs() < 1e-6);
}

#[test]
fn egt_normal_converges() {
    let g = asym_game();
    let pf1 = Normal::new(&g.sp1);
    let pf2 = Normal::new(&g.sp2);
    let egt = EGT::new(&g, &pf1, &pf2);
    let (_x, _y, err) = egt.run(1200).expect("run");
    let best = err.iter().map(|&e| to_f64(e)).fold(f64::INFINITY, f64::min);
    assert!(best < 1e-3, "best error {}", best);
}

#[test]
fn egt_farina_converges() {
    let g = asym_game();
    let pf1 = Farina2021::new(&g.sp1).expect("check");
    let pf2 = Farina2021::new(&g.sp2).expect("check");
    let egt = EGT::new(&g, &pf1, &pf2);
    let (_x, _y, err) = egt.run(1200).expect("run");
    let best = err.iter().map(|&e| to_f64(e)).fold(f64::INFINITY, f64::min);
    assert!(best < 1e-3, "best error {}", best);
}

#[test]
fn egt_centering_warm_start_converges() {
    // a CFR+ warm start re-anchors both prox functions
    let g = asym_game();
    let (x, y, _err) = cfr_plus(&g, 20);
    let pf1 = Centering::new(&g.sp1, x);
    let pf2 = Centering::new(&g.sp2, y);
    let egt = EGT::new(&g, &pf1, &pf2);
    let (_x2, _y2, err2) = egt.run(1200).expect("run");
    let best = err2.iter().map(|&e| to_f64(e)).fold(f64::INFINITY, f64::min);
    assert!(best < 1e-3, "best error {}", best);
}

#[test]
fn egt_certificate_holds_after_each_accepted_step() {
    // shrink plus backtrack always leaves a positive certificate
    let g = asym_game();
    let pf1 = Normal::new(&g.sp1);
    let pf2 = Normal::new(&g.sp2);
    let egt = EGT::new(&g, &pf1, &pf2);
    let (x, y, mu) = egt.initialize().expect("initialize");
    assert!(egt.excessive_gap(&x, &y, mu, mu) > 0);
    let (x2, y2, mu1b, tau) = egt.decrease_mu1(&x, &y, mu, mu, SCALE / 2).expect("step");
    assert!(egt.excessive_gap(&x2, &y2, mu1b, mu) > 0);
    let (x3, y3, mu2b, _tau2) = egt.decrease_mu2(&x2, &y2, mu1b, mu, tau).expect("step");
    assert!(egt.excessive_gap(&x3, &y3, mu1b, mu2b) > 0);
}

#[test]
fn egt_fails_on_degenerate_game() {
    // a game with an all-zero payoff operator never satisfies the
    // excessive-gap certificate, so initialization aborts at the mu ceiling
    let sp1 = simplex_pol();
    let sp2 = simplex_pol();
    let row: Vec<usize> = Vec::new();
    let col: Vec<usize> = Vec::new();
    let dat: Vec<i64> = Vec::new();
    let g = Game::new(sp1, sp2, &row, &col, &dat);
    let pf1 = Normal::new(&g.sp1);
    let pf2 = Normal::new(&g.sp2);
    let egt = EGT::new(&g, &pf1, &pf2);
    match egt.run(10) {
        Err(e) => assert!(e == EgtError::MuLimitReached),
        Ok(_) => panic!("expected the mu ceiling"),
    }
}

#[test]
fn mixed_budget_split_matches_spec() {
    // the tenth/ninety split used by the mixed and centering modes
    let steps: usize = 50;
    assert_eq!(steps / 10, 5);
    assert_eq!(steps * 9 / 10, 45);
    let g = asym_game();
    let (x, y, mut err) = cfr_plus(&g, steps / 10);
    let pf1 = Centering::new(&g.sp1, x);
    let pf2 = Centering::new(&g.sp2, y);
    let egt = EGT::new(&g, &pf1, &pf2);
    let (_x2, _y2, mut err2) = egt.run(steps * 9 / 10).expect("run");
    err.append(&mut err2);
    assert_eq!(err.len(), 5 + 45);
}
