use mesh_simplification::fx::{fx_add, fx_div, fx_mul, fx_neg, fx_sqrt, fx_sub, FX_ONE};

fn fx(v: f64) -> i64 {
    (v * 4294967296.0).round() as i64
}

#[test]
fn exact_arithmetic() {
    assert_eq!(fx_add(fx(1.5), fx(2.25)), fx(3.75));
    assert_eq!(fx_sub(fx(1.5), fx(2.25)), fx(-0.75));
    assert_eq!(fx_mul(fx(1.5), fx(2.0)), fx(3.0));
    assert_eq!(fx_mul(fx(-1.5), fx(2.0)), fx(-3.0));
    assert_eq!(fx_div(fx(3.0), fx(2.0)), fx(1.5));
    assert_eq!(fx_neg(fx(4.0)), fx(-4.0));
    assert_eq!(fx_sqrt(fx(4.0)), fx(2.0));
    assert_eq!(fx_sqrt(fx(-1.0)), 0);
}

#[test]
fn saturation_policy() {
    assert_eq!(fx_add(i64::MAX, FX_ONE), i64::MAX);
    assert_eq!(fx_sub(i64::MIN, FX_ONE), i64::MIN);
    assert_eq!(fx_mul(i64::MAX, i64::MAX), i64::MAX);
    assert_eq!(fx_mul(i64::MIN, i64::MAX), i64::MIN);
    assert_eq!(fx_neg(i64::MIN), i64::MAX);
    // Division by zero saturates in the dividend's direction; 0/0 is 0.
    assert_eq!(fx_div(FX_ONE, 0), i64::MAX);
    assert_eq!(fx_div(-FX_ONE, 0), i64::MIN);
    assert_eq!(fx_div(0, 0), 0);
}
