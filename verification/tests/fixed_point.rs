use statlearn::fx::{Fx, FX_MAX, FX_SCALE};

#[test]
fn test_fx_from_int_and_raw() {
    assert_eq!(Fx::from_int(5).raw(), 5 * FX_SCALE);
    assert_eq!(Fx::from_int(-3).raw(), -3 * FX_SCALE);
    assert_eq!(Fx::from_raw(123).raw(), 123);
    assert_eq!(Fx::zero().raw(), 0);
    assert_eq!(Fx::one().raw(), FX_SCALE);
}

#[test]
fn test_fx_add_sub() {
    let a = Fx::from_int(7);
    let b = Fx::from_int(2);
    assert_eq!(a.add(b).raw(), 9 * FX_SCALE);
    assert_eq!(a.sub(b).raw(), 5 * FX_SCALE);
    assert_eq!(b.sub(a).raw(), -5 * FX_SCALE);
}

#[test]
fn test_fx_mul_exact_and_truncating() {
    // 1.5 * 2.5 == 3.75 exactly.
    let a = Fx::from_raw(3 * FX_SCALE / 2);
    let b = Fx::from_raw(5 * FX_SCALE / 2);
    assert_eq!(a.mul(b).raw(), 15 * FX_SCALE / 4);
    // Signs.
    assert_eq!(a.neg().mul(b).raw(), -(15 * FX_SCALE / 4));
    assert_eq!(a.neg().mul(b.neg()).raw(), 15 * FX_SCALE / 4);
    // Truncation toward zero: (1/3) * 3 loses the last unit.
    let third = Fx::from_int(1).div(Fx::from_int(3));
    assert_eq!(third.raw(), 333_333_333);
    assert_eq!(third.mul(Fx::from_int(3)).raw(), 999_999_999);
}

#[test]
fn test_fx_div_truncates_toward_zero() {
    assert_eq!(Fx::from_int(1).div(Fx::from_int(3)).raw(), 333_333_333);
    assert_eq!(Fx::from_int(-1).div(Fx::from_int(3)).raw(), -333_333_333);
    assert_eq!(Fx::from_int(1).div(Fx::from_int(-3)).raw(), -333_333_333);
    assert_eq!(Fx::from_int(-1).div(Fx::from_int(-3)).raw(), 333_333_333);
    assert_eq!(Fx::from_int(10).div(Fx::from_int(4)).raw(), 5 * FX_SCALE / 2);
}

#[test]
fn test_fx_saturation() {
    let top = Fx::from_raw(FX_MAX);
    assert_eq!(top.add(Fx::one()).raw(), FX_MAX);
    assert_eq!(top.neg().sub(Fx::one()).raw(), -FX_MAX);
    assert_eq!(Fx::from_raw(i64::MIN).neg().raw(), FX_MAX);
    assert_eq!(top.mul(top).raw(), FX_MAX);
}

#[test]
fn test_fx_min_max_abs() {
    let a = Fx::from_int(-2);
    let b = Fx::from_int(3);
    assert_eq!(a.min(b).raw(), -2 * FX_SCALE);
    assert_eq!(a.max(b).raw(), 3 * FX_SCALE);
    assert_eq!(a.abs().raw(), 2 * FX_SCALE);
    assert_eq!(b.abs().raw(), 3 * FX_SCALE);
}
