use fluid_sim::fx::Fx;
use fluid_sim::vec2::Vec2D;

fn fx(raw: i64) -> Fx {
    Fx::from_raw(raw)
}

#[test]
fn mul_truncates_toward_zero() {
    // 1.5 * 1.5 == 2.25 exactly
    assert_eq!(fx(1_500_000).mul(fx(1_500_000)).raw, 2_250_000);
    // -7 * 2 == -14
    assert_eq!(fx(-7_000_000).mul(fx(2_000_000)).raw, -14_000_000);
    // 1e-6 * 1e-6 truncates to zero
    assert_eq!(fx(1).mul(fx(1)).raw, 0);
    // -1e-6 * 1e-6 truncates toward zero, not toward negative infinity
    assert_eq!(fx(-1).mul(fx(1)).raw, 0);
}

#[test]
fn div_truncates_toward_zero() {
    assert_eq!(fx(-7_000_000).div(fx(2_000_000)).raw, -3_500_000);
    assert_eq!(fx(1_000_000).div(fx(3_000_000)).raw, 333_333);
    assert_eq!(fx(-1_000_000).div(fx(3_000_000)).raw, -333_333);
}

#[test]
fn add_saturates_at_the_limit() {
    let limit: i64 = 0x3fff_ffff_ffff_ffff;
    assert_eq!(fx(limit).add(fx(limit)).raw, limit);
    assert_eq!(fx(-limit).sub(fx(limit)).raw, -limit);
    assert_eq!(fx(5).add(fx(7)).raw, 12);
}

#[test]
fn neg_is_exact() {
    assert_eq!(fx(123).neg().raw, -123);
    assert_eq!(fx(0).neg().raw, 0);
}

#[test]
fn min_max_pick_by_value() {
    assert_eq!(fx(3).min(fx(-4)).raw, -4);
    assert_eq!(fx(3).max(fx(-4)).raw, 3);
}

#[test]
fn length_of_three_four_is_five() {
    let v = Vec2D::new(fx(3_000_000), fx(4_000_000));
    assert_eq!(v.length().raw, 5_000_000);
}

#[test]
fn length_of_unit_diagonal_is_root_two_truncated() {
    let v = Vec2D::new(fx(1_000_000), fx(1_000_000));
    assert_eq!(v.length().raw, 1_414_213);
}

#[test]
fn length_of_negative_components() {
    let v = Vec2D::new(fx(-3_000_000), fx(-4_000_000));
    assert_eq!(v.length().raw, 5_000_000);
}

#[test]
fn vector_ops_are_componentwise() {
    let a = Vec2D::new(fx(1_000_000), fx(2_000_000));
    let b = Vec2D::new(fx(500_000), fx(-500_000));
    let s = a.add(b);
    assert_eq!((s.x.raw, s.y.raw), (1_500_000, 1_500_000));
    let d = a.subtract(b);
    assert_eq!((d.x.raw, d.y.raw), (500_000, 2_500_000));
    let m = a.scale(fx(2_000_000));
    assert_eq!((m.x.raw, m.y.raw), (2_000_000, 4_000_000));
    let q = a.divide(fx(2_000_000));
    assert_eq!((q.x.raw, q.y.raw), (500_000, 1_000_000));
}
