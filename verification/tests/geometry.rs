use rustycast::fixed::{clamp64, cos_fx, fx_div, fx_mul, isqrt64, sin_fx, tdiv64, tdiv_i64, FX_ONE};
use rustycast::math::{LineSeg, Mat3, Vec2};

#[test]
fn intersect_crossing_at_midpoint() {
    // A horizontal probe through a vertical target crosses it halfway:
    // the parameter along the target is exactly one half.
    let ray = LineSeg::new(-FX_ONE, 0, FX_ONE, 0);
    let target = LineSeg::new(0, -FX_ONE, 0, FX_ONE);
    assert_eq!(ray.intersects(target), Some(32768));
}

#[test]
fn intersect_parallel_overlapping_is_none() {
    let a = LineSeg::new(0, 0, 2 * FX_ONE, 0);
    let b = LineSeg::new(FX_ONE, 0, 3 * FX_ONE, 0);
    assert_eq!(a.intersects(b), None);
}

#[test]
fn intersect_parallel_offset_is_none() {
    let a = LineSeg::new(0, 0, 2 * FX_ONE, 0);
    let b = LineSeg::new(0, FX_ONE, 2 * FX_ONE, FX_ONE);
    assert_eq!(a.intersects(b), None);
    let c = LineSeg::new(0, 0, FX_ONE, FX_ONE);
    let d = LineSeg::new(FX_ONE, 0, 2 * FX_ONE, FX_ONE);
    assert_eq!(c.intersects(d), None);
}

#[test]
fn intersect_out_of_range_is_none() {
    // The lines cross, but beyond the target's endpoints.
    let ray = LineSeg::new(-FX_ONE, 0, FX_ONE, 0);
    let target = LineSeg::new(3 * FX_ONE, -FX_ONE, 3 * FX_ONE, FX_ONE);
    assert_eq!(ray.intersects(target), None);
}

#[test]
fn rotation_round_trip_within_tolerance() {
    // Transforming by a rotation and then by its inverse returns the
    // endpoints within a small fixed-point tolerance.
    let theta: i64 = 19661; // about 0.3 rad
    let r = Mat3::rotation(theta);
    let rinv = Mat3::rotation(-theta);
    let seg = LineSeg::new(10 * FX_ONE, 5 * FX_ONE, -7 * FX_ONE, 3 * FX_ONE);
    let once = seg.transform(r);
    let back = once.transform(rinv);
    let tol: i64 = 200; // about 0.003 world units
    assert!((back.a.x - seg.a.x).abs() <= tol);
    assert!((back.a.y - seg.a.y).abs() <= tol);
    assert!((back.b.x - seg.b.x).abs() <= tol);
    assert!((back.b.y - seg.b.y).abs() <= tol);
}

#[test]
fn rotation_inverse_is_transpose() {
    let theta: i64 = 77777;
    let r = Mat3::rotation(theta);
    let rinv = Mat3::rotation(-theta);
    assert_eq!(rinv.a00, r.a00);
    assert_eq!(rinv.a01, r.a10);
    assert_eq!(rinv.a10, r.a01);
    assert_eq!(rinv.a11, r.a11);
}

#[test]
fn vector_operations() {
    let a = Vec2::new(3 * FX_ONE, 4 * FX_ONE);
    let b = Vec2::new(FX_ONE, 2 * FX_ONE);
    assert_eq!(a.add(b), Vec2::new(4 * FX_ONE, 6 * FX_ONE));
    assert_eq!(a.sub(b), Vec2::new(2 * FX_ONE, 2 * FX_ONE));
    assert_eq!(a.neg(), Vec2::new(-3 * FX_ONE, -4 * FX_ONE));
    assert_eq!(a.mul(2 * FX_ONE), Vec2::new(6 * FX_ONE, 8 * FX_ONE));
    assert_eq!(a.div(2 * FX_ONE), Vec2::new(3 * FX_ONE / 2, 2 * FX_ONE));
    // A 3-4-5 triangle has an exact integer length.
    assert_eq!(a.get_length(), 5 * FX_ONE);
    assert_eq!(a.get_length_sqr(), 25 * FX_ONE);
    // dot = 3*1 + 4*2 = 11 square units.
    assert_eq!(a.dot(b), 11 * FX_ONE);
    // cross = 3*2 - 1*4 = 2.
    assert_eq!(a.cross(b), 2 * FX_ONE);
}

#[test]
fn normalize_unit_length() {
    let v = Vec2::new(3 * FX_ONE, 4 * FX_ONE).normalize();
    // (0.6, 0.8) in fixed point, truncated.
    assert_eq!(v.x, 39321);
    assert_eq!(v.y, 52428);
}

#[test]
fn segment_at_endpoints_and_middle() {
    let s = LineSeg::new(0, 0, 4 * FX_ONE, 2 * FX_ONE);
    assert_eq!(s.at(0), Vec2::new(0, 0));
    assert_eq!(s.at(FX_ONE), Vec2::new(4 * FX_ONE, 2 * FX_ONE));
    assert_eq!(s.at(32768), Vec2::new(2 * FX_ONE, FX_ONE));
}

#[test]
fn matrix_translation_and_scale() {
    let t = Mat3::translation(Vec2::new(5 * FX_ONE, -3 * FX_ONE));
    let p = t.apply(Vec2::new(FX_ONE, FX_ONE));
    assert_eq!(p, Vec2::new(6 * FX_ONE, -2 * FX_ONE));
    let s = Mat3::scale(Vec2::new(2 * FX_ONE, 3 * FX_ONE));
    let q = s.apply(Vec2::new(FX_ONE, FX_ONE));
    assert_eq!(q, Vec2::new(2 * FX_ONE, 3 * FX_ONE));
}

#[test]
fn fixed_point_scalars() {
    assert_eq!(fx_mul(3 * FX_ONE, 2 * FX_ONE), 6 * FX_ONE);
    assert_eq!(fx_div(FX_ONE, 3 * FX_ONE), 21845);
    // Truncation is toward zero, matching Rust's signed division.
    assert_eq!(fx_mul(-65537, 32768), -32768);
    assert_eq!(fx_div(-FX_ONE, 3 * FX_ONE), -21845);
    assert_eq!(tdiv64(-7, 2), -3);
    assert_eq!(tdiv_i64(7, -2), -3);
    assert_eq!(tdiv_i64(-7, -2), 3);
    assert_eq!(clamp64(5, 0, 3), 3);
    assert_eq!(clamp64(-5, 0, 3), 0);
    assert_eq!(clamp64(2, 0, 3), 2);
}

#[test]
fn integer_square_roots() {
    assert_eq!(isqrt64(0), 0);
    assert_eq!(isqrt64(1), 1);
    assert_eq!(isqrt64(3), 1);
    assert_eq!(isqrt64(4), 2);
    assert_eq!(isqrt64(15), 3);
    assert_eq!(isqrt64(16), 4);
    assert_eq!(isqrt64(1_000_000_000_000), 1_000_000);
    assert_eq!(isqrt64(u64::MAX), 0xFFFF_FFFF);
}

#[test]
fn trigonometry_fixed_points() {
    assert_eq!(sin_fx(0), 0);
    assert_eq!(cos_fx(0), FX_ONE);
    // A quarter turn: sine close to one, cosine close to zero.
    assert!((sin_fx(102944) - FX_ONE).abs() <= 16);
    assert!(cos_fx(102944).abs() <= 64);
    // Half a turn: sine close to zero, cosine close to minus one.
    assert!(sin_fx(205887).abs() <= 16);
    assert!((cos_fx(205887) + FX_ONE).abs() <= 64);
    // Odd and even symmetry are exact.
    for k in 1..50i64 {
        let x = k * 8191;
        assert_eq!(sin_fx(-x), -sin_fx(x));
        assert_eq!(cos_fx(-x), cos_fx(x));
    }
    // Values stay within one fixed-point unit.
    for k in -100..100i64 {
        let x = k * 7919;
        assert!(sin_fx(x).abs() <= FX_ONE);
        assert!(cos_fx(x).abs() <= FX_ONE);
    }
}
