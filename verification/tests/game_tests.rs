use egt_on_efg::cfr::{accumulate, normalize, prod};
use egt_on_efg::fx::{FX_ONE, SCALE};
use egt_on_efg::game::{Game, StrategyPolytope};

fn to_f64(v: i64) -> f64 {
    v as f64 / SCALE as f64
}

fn from_f64(v: f64) -> i64 {
    (v * SCALE as f64).round() as i64
}

fn fxv(vals: &[f64]) -> Vec<i64> {
    vals.iter().map(|&v| from_f64(v)).collect()
}

/// One decision point owning coordinates 1 and 2 below the root coordinate.
fn simplex_pol() -> StrategyPolytope {
    StrategyPolytope { par: vec![0], idx: vec![1, 3] }
}

/// The flat two-coordinate encoding where the root shares the range.
fn flat_pol() -> StrategyPolytope {
    StrategyPolytope { par: vec![0], idx: vec![0, 2] }
}

/// Matching pennies over the root-separate encoding: payoff entries on
/// coordinates 1 and 2 of both players.
fn pennies_game() -> Game {
    let sp1 = simplex_pol();
    let sp2 = simplex_pol();
    let row: Vec<usize> = vec![1, 1, 2, 2];
    let col: Vec<usize> = vec![1, 2, 1, 2];
    let dat: Vec<i64> = vec![FX_ONE, -FX_ONE, -FX_ONE, FX_ONE];
    Game::new(sp1, sp2, &row, &col, &dat)
}

#[test]
fn normalize_divides_by_range_sum() {
    let sp = simplex_pol();
    let z = normalize(&sp, fxv(&[0.0, 3.0, 1.0]));
    assert_eq!(z[0], FX_ONE);
    assert!((to_f64(z[1]) - 0.75).abs() < 1e-8);
    assert!((to_f64(z[2]) - 0.25).abs() < 1e-8);
}

#[test]
fn normalize_falls_back_to_uniform() {
    let sp = simplex_pol();
    let z = normalize(&sp, fxv(&[0.0, 0.0, 0.0]));
    assert!((to_f64(z[1]) - 0.5).abs() < 1e-8);
    assert!((to_f64(z[2]) - 0.5).abs() < 1e-8);
}

#[test]
fn normalize_ranges_sum_to_one() {
    // every owned range of the output sums to one within a flooring unit
    // per coordinate, and all entries are nonnegative
    let sp = StrategyPolytope { par: vec![0, 1], idx: vec![1, 4, 6] };
    let z = normalize(&sp, fxv(&[0.0, 1.0, 2.0, 5.0, 0.0, 0.0]));
    for v in &z {
        assert!(*v >= 0);
    }
    let s1: i64 = z[1] + z[2] + z[3];
    let s2: i64 = z[4] + z[5];
    assert!(FX_ONE - 3 < s1 && s1 <= FX_ONE);
    assert!(FX_ONE - 2 < s2 && s2 <= FX_ONE);
}

#[test]
fn expand_pins_root_and_multiplies() {
    let sp = StrategyPolytope { par: vec![0, 1], idx: vec![1, 3, 5] };
    let x = prod(&sp, fxv(&[9.0, 0.6, 0.4, 0.5, 0.5]));
    assert_eq!(x[0], FX_ONE);
    assert!((to_f64(x[1]) - 0.6).abs() < 1e-8);
    assert!((to_f64(x[2]) - 0.4).abs() < 1e-8);
    // children of decision point 1 are scaled by their parent's weight
    assert!((to_f64(x[3]) - 0.3).abs() < 1e-8);
    assert!((to_f64(x[4]) - 0.3).abs() < 1e-8);
}

#[test]
fn expand_flat_encoding_keeps_root_one() {
    let sp = flat_pol();
    let x = prod(&sp, fxv(&[0.2, 0.8]));
    assert_eq!(x[0], FX_ONE);
    assert!((to_f64(x[1]) - 0.8).abs() < 1e-8);
}

#[test]
fn accumulate_credits_parent_and_regrets() {
    let sp = simplex_pol();
    let z = fxv(&[1.0, 0.5, 0.5]);
    let util = fxv(&[0.0, 1.0, -1.0]);
    let mut regret = fxv(&[0.0, 0.0, 0.0]);
    accumulate(&sp, &z, util, &mut regret);
    // expected utility is zero, so regrets are the raw utilities
    assert!((to_f64(regret[1]) - 1.0).abs() < 1e-8);
    assert!((to_f64(regret[2]) + 1.0).abs() < 1e-8);
}

#[test]
fn minimize_and_maximize_fold_ranges() {
    let sp = simplex_pol();
    let lo = sp.minimize(fxv(&[0.25, 2.0, -1.0]));
    assert!((to_f64(lo) + 0.75).abs() < 1e-8);
    let sp2 = simplex_pol();
    let hi = sp2.maximize(fxv(&[0.25, 2.0, -1.0]));
    assert!((to_f64(hi) - 2.25).abs() < 1e-8);
}

#[test]
fn sparse_dot_applies_both_orientations() {
    let g = pennies_game();
    let y = fxv(&[1.0, 0.75, 0.25]);
    let ay = g.mat_a.dot(&y);
    assert!((to_f64(ay[0]) - 0.0).abs() < 1e-8);
    assert!((to_f64(ay[1]) - 0.5).abs() < 1e-8);
    assert!((to_f64(ay[2]) + 0.5).abs() < 1e-8);
    let x = fxv(&[1.0, 0.5, 0.5]);
    let atx = g.mat_a_t.dot(&x);
    assert!((to_f64(atx[1]) - 0.0).abs() < 1e-8);
    assert!((to_f64(atx[2]) - 0.0).abs() < 1e-8);
}

#[test]
fn error_is_zero_at_equilibrium() {
    let g = pennies_game();
    let x = fxv(&[1.0, 0.5, 0.5]);
    let y = fxv(&[1.0, 0.5, 0.5]);
    assert_eq!(g.error(&x, &y), 0);
}

#[test]
fn error_is_nonnegative_on_valid_pairs() {
    let g = pennies_game();
    let pairs: Vec<(Vec<i64>, Vec<i64>)> = vec![
        (fxv(&[1.0, 1.0, 0.0]), fxv(&[1.0, 0.0, 1.0])),
        (fxv(&[1.0, 0.25, 0.75]), fxv(&[1.0, 0.9, 0.1])),
        (fxv(&[1.0, 0.5, 0.5]), fxv(&[1.0, 1.0, 0.0])),
    ];
    for (x, y) in pairs {
        assert!(g.error(&x, &y) >= 0);
    }
}

#[test]
fn error_positive_away_from_equilibrium() {
    let g = pennies_game();
    // both players pure: exploitability of pure matching pennies is 2
    let x = fxv(&[1.0, 1.0, 0.0]);
    let y = fxv(&[1.0, 1.0, 0.0]);
    assert!((to_f64(g.error(&x, &y)) - 2.0).abs() < 1e-7);
}
