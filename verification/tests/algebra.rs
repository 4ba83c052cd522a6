use raytrace::fixed::{Fixed, SCALE};
use raytrace::vec3::Vec3;

fn fx(v: f64) -> Fixed {
    Fixed::from_raw((v * SCALE as f64).round() as i64)
}

fn to_f64(v: Fixed) -> f64 {
    v.raw as f64 / SCALE as f64
}

fn vec(x: f64, y: f64, z: f64) -> Vec3 {
    Vec3::from(fx(x), fx(y), fx(z))
}

#[test]
fn unit_vector_length_near_one() {
    let cases = [
        vec(1.0, 2.0, 3.0),
        vec(-4.0, 0.5, 2.0),
        vec(0.1, -0.1, 0.05),
        vec(100.0, -250.0, 3.0),
    ];
    for v in cases {
        let len = v.unit_vector().length();
        assert!(
            (to_f64(len) - 1.0).abs() < 1e-3,
            "unit length {} too far from 1",
            to_f64(len)
        );
    }
}

#[test]
fn unit_vector_axis_exact() {
    // 3.0 is 196608 raw, a multiple of 256: normalization is exact.
    let v = vec(3.0, 0.0, 0.0);
    let u = v.unit_vector();
    assert_eq!(u.x().raw, SCALE);
    assert_eq!(u.y().raw, 0);
    assert_eq!(u.z().raw, 0);
    assert_eq!(u.length().raw, SCALE);

    let w = vec(-0.25, 0.0, 0.0).unit_vector();
    assert_eq!(w.x().raw, -SCALE);
    assert_eq!(w.length().raw, SCALE);
}

#[test]
fn cross_orthogonality() {
    let a = vec(1.0, 2.0, 3.0);
    let b = vec(-2.0, 0.5, 4.0);
    let c = a.cross(b);
    assert!(to_f64(c.dot(a)).abs() < 1e-3);
    assert!(to_f64(c.dot(b)).abs() < 1e-3);

    let a2 = vec(10.0, -7.0, 0.125);
    let b2 = vec(0.0, 3.0, -9.0);
    let c2 = a2.cross(b2);
    assert!(to_f64(c2.dot(a2)).abs() < 1e-2);
    assert!(to_f64(c2.dot(b2)).abs() < 1e-2);
}

#[test]
fn cross_exact_values() {
    // x cross y = z, exactly.
    let x = vec(1.0, 0.0, 0.0);
    let y = vec(0.0, 1.0, 0.0);
    let z = x.cross(y);
    assert_eq!((z.x().raw, z.y().raw, z.z().raw), (0, 0, SCALE));
}

#[test]
fn dot_exact_value() {
    let a = vec(1.0, 2.0, 3.0);
    let b = vec(4.0, -5.0, 6.0);
    // 4 - 10 + 18 = 12, exact in fixed point.
    assert_eq!(a.dot(b).raw, 12 * SCALE);
}

#[test]
fn reflect_exact() {
    // reflect((1,-1,0), (0,1,0)) = (1,1,0), exact.
    let v = vec(1.0, -1.0, 0.0);
    let n = vec(0.0, 1.0, 0.0);
    let r = v.reflect(n);
    assert_eq!((r.x().raw, r.y().raw, r.z().raw), (SCALE, SCALE, 0));
}

#[test]
fn refract_straight_through() {
    // Normal incidence with a matched index: the direction passes
    // through unchanged up to rounding.
    let uv = vec(0.0, 0.0, -1.0);
    let n = vec(0.0, 0.0, 1.0);
    let r = uv.refract(n, fx(1.0));
    assert!(to_f64(r.x()).abs() < 1e-3);
    assert!(to_f64(r.y()).abs() < 1e-3);
    assert!((to_f64(r.z()) + 1.0).abs() < 1e-2);
}

#[test]
fn vector_arithmetic() {
    let a = vec(1.0, 2.0, 3.0);
    let b = vec(0.5, -1.0, 2.0);
    let s = a.add(b);
    assert_eq!((s.x().raw, s.y().raw, s.z().raw), (98304, SCALE, 5 * SCALE));
    let d = a.sub(b);
    assert_eq!((d.x().raw, d.y().raw, d.z().raw), (32768, 3 * SCALE, SCALE));
    let n = a.neg();
    assert_eq!(n.x().raw, -SCALE);
    let h = a.mul(b);
    assert_eq!((h.x().raw, h.y().raw, h.z().raw), (32768, -2 * SCALE, 6 * SCALE));
    let sc = a.scale(fx(2.0));
    assert_eq!(sc.z().raw, 6 * SCALE);
    let dv = a.div(fx(2.0));
    assert_eq!((dv.x().raw, dv.y().raw, dv.z().raw), (32768, SCALE, 98304));
    assert_eq!(a.length_squared().raw, 14 * SCALE);
}

#[test]
fn fixed_sqrt_exact() {
    assert_eq!(fx(0.25).sqrt().raw, SCALE / 2);
    assert_eq!(fx(4.0).sqrt().raw, 2 * SCALE);
    assert_eq!(fx(0.0).sqrt().raw, 0);
    assert_eq!(fx(-1.0).sqrt().raw, 0);
}

#[test]
fn random_vectors_in_bounds() {
    for _ in 0..200 {
        let p = Vec3::random_in_unit_sphere();
        assert!(p.length_squared().raw < SCALE);
        let d = Vec3::random_in_unit_disk();
        assert!(d.length_squared().raw < SCALE);
        assert_eq!(d.z().raw, 0);
        let u = Vec3::random_unit_vector();
        assert!((to_f64(u.length()) - 1.0).abs() < 0.02);
        let r = Vec3::random();
        assert!(0 <= r.x().raw && r.x().raw < SCALE);
    }
}

#[test]
fn random_range_draws_vary() {
    // The randomness wrapper must actually draw: a constant source
    // would leave every component identical over many draws.
    let mut seen = std::collections::HashSet::new();
    for _ in 0..100 {
        let v = Vec3::random_range(fx(-1.0), fx(1.0));
        assert!(-SCALE <= v.x().raw && v.x().raw < SCALE);
        assert!(-SCALE <= v.y().raw && v.y().raw < SCALE);
        seen.insert(v.x().raw);
    }
    assert!(seen.len() > 1);
}
