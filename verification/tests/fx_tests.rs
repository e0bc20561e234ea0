use egt_on_efg::fx::{
    fx_add, fx_div, fx_exp_neg, fx_from_usize, fx_ln, fx_max, fx_min, fx_mul, fx_neg, fx_sub,
    EXP_CUT, FX_ONE, LN2_FX, MAX_FIN, MIN_FIN, NEG_INF, SCALE,
};

fn to_f64(v: i64) -> f64 {
    v as f64 / SCALE as f64
}

fn from_f64(v: f64) -> i64 {
    (v * SCALE as f64).round() as i64
}

#[test]
fn add_is_exact_in_range() {
    assert_eq!(fx_add(from_f64(1.5), from_f64(2.25)), from_f64(3.75));
    assert_eq!(fx_add(5, -5), 0);
}

#[test]
fn add_saturates() {
    assert_eq!(fx_add(MAX_FIN, MAX_FIN), MAX_FIN);
    assert_eq!(fx_add(MIN_FIN, MIN_FIN), MIN_FIN);
}

#[test]
fn neg_inf_is_absorbing() {
    assert_eq!(fx_add(NEG_INF, FX_ONE), NEG_INF);
    assert_eq!(fx_mul(NEG_INF, FX_ONE), NEG_INF);
    assert_eq!(fx_div(NEG_INF, FX_ONE), NEG_INF);
    assert_eq!(fx_neg(NEG_INF), MAX_FIN);
    assert_eq!(fx_max(NEG_INF, 0), 0);
    assert_eq!(fx_min(NEG_INF, 0), NEG_INF);
}

#[test]
fn mul_rounds_toward_negative_infinity() {
    // 1.5 * 2.5 = 3.75 exactly representable
    assert_eq!(fx_mul(from_f64(1.5), from_f64(2.5)), from_f64(3.75));
    // floor rounding: (1 unit) * (1 unit) floors to zero
    assert_eq!(fx_mul(1, 1), 0);
    assert_eq!(fx_mul(-1, 1), -1);
}

#[test]
fn div_matches_floor_semantics() {
    assert_eq!(fx_div(from_f64(3.0), from_f64(2.0)), from_f64(1.5));
    // division by zero saturates with the numerator's sign
    assert_eq!(fx_div(FX_ONE, 0), MAX_FIN);
    assert_eq!(fx_div(-FX_ONE, 0), MIN_FIN);
    assert_eq!(fx_div(0, 0), 0);
}

#[test]
fn sub_is_add_of_negation() {
    assert_eq!(fx_sub(from_f64(2.0), from_f64(0.5)), from_f64(1.5));
    assert_eq!(fx_sub(0, NEG_INF), MAX_FIN);
}

#[test]
fn exp_at_zero_is_one() {
    assert_eq!(fx_exp_neg(0), FX_ONE);
}

#[test]
fn exp_of_minus_ln2_is_half() {
    let r = fx_exp_neg(-LN2_FX);
    assert!((to_f64(r) - 0.5).abs() < 1e-7);
}

#[test]
fn exp_underflows_to_zero() {
    assert_eq!(fx_exp_neg(-EXP_CUT), 0);
    assert_eq!(fx_exp_neg(NEG_INF), 0);
}

#[test]
fn exp_matches_reference_values() {
    for &t in &[-0.25f64, -1.0, -2.0, -5.0, -10.0] {
        let r = fx_exp_neg(from_f64(t));
        assert!((to_f64(r) - t.exp()).abs() < 1e-7, "exp({}) off", t);
    }
}

#[test]
fn ln_of_one_is_zero() {
    assert_eq!(fx_ln(FX_ONE), 0);
}

#[test]
fn ln_of_two_is_ln2() {
    let r = fx_ln(2 * SCALE);
    assert!((to_f64(r) - std::f64::consts::LN_2).abs() < 1e-7);
}

#[test]
fn ln_of_nonpositive_is_neg_inf() {
    assert_eq!(fx_ln(0), NEG_INF);
    assert_eq!(fx_ln(-FX_ONE), NEG_INF);
}

#[test]
fn ln_matches_reference_values() {
    for &v in &[0.001f64, 0.1, 0.5, 1.5, 3.0, 1000.0] {
        let r = fx_ln(from_f64(v));
        assert!((to_f64(r) - v.ln()).abs() < 1e-6, "ln({}) off", v);
    }
}

#[test]
fn ln_exp_round_trip() {
    for &v in &[-0.5f64, -1.25, -3.0] {
        let e = fx_exp_neg(from_f64(v));
        let r = fx_ln(e);
        assert!((to_f64(r) - v).abs() < 1e-6);
    }
}

#[test]
fn from_usize_scales() {
    assert_eq!(fx_from_usize(0), 0);
    assert_eq!(fx_from_usize(7), 7 * SCALE);
}
