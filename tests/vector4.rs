use rmath_rs::Vector4;

fn v4(x: f32, y: f32, z: f32, w: f32) -> Vector4 {
    Vector4::from4(x.to_bits(), y.to_bits(), z.to_bits(), w.to_bits())
}

fn parts(v: &Vector4) -> [f32; 4] {
    [
        f32::from_bits(v.x()),
        f32::from_bits(v.y()),
        f32::from_bits(v.z()),
        f32::from_bits(v.w()),
    ]
}

fn close(a: f32, b: f32, eps: f32) -> bool {
    (a - b).abs() <= eps
}

/// GLSL `mod`, with the library's floor on the quotient.
fn glsl_mod(v: &Vector4, d: &Vector4) -> [f32; 4] {
    let a = parts(v);
    let b = parts(d);
    let q = v4(a[0] / b[0], a[1] / b[1], a[2] / b[2], a[3] / b[3]).floor();
    let fq = parts(&q);
    [
        a[0] - b[0] * fq[0],
        a[1] - b[1] * fq[1],
        a[2] - b[2] * fq[2],
        a[3] - b[3] * fq[3],
    ]
}

fn euclid_mod(v: &Vector4, d: &Vector4) -> [f32; 4] {
    let m = glsl_mod(v, d);
    let ret = v4(m[0], m[1], m[2], m[3]);
    let off = parts(&ret.euclidean_offset(d));
    [m[0] + off[0], m[1] + off[1], m[2] + off[2], m[3] + off[3]]
}

#[test]
fn from4_reads_back_components() {
    let v = v4(0.2, 1.1, -2.9, 99.9);
    assert_eq!(parts(&v), [0.2, 1.1, -2.9, 99.9]);
    let z = v4(-0.0, 0.0, f32::INFINITY, f32::MIN_POSITIVE);
    assert_eq!(z.x(), (-0.0f32).to_bits());
    assert_eq!(z.y(), 0.0f32.to_bits());
    assert_eq!(z.z(), f32::INFINITY.to_bits());
    assert_eq!(z.w(), f32::MIN_POSITIVE.to_bits());
}

#[test]
fn from1_broadcasts() {
    let v = Vector4::from1(0.1f32.to_bits());
    assert_eq!(parts(&v), [0.1, 0.1, 0.1, 0.1]);
    let n = Vector4::from1((-7.5f32).to_bits());
    assert_eq!(parts(&n), [-7.5; 4]);
}

#[test]
fn floor_example() {
    let v = v4(0.2, 1.1, -2.9, 99.9).floor();
    assert_eq!(parts(&v), [0.0, 1.0, -3.0, 99.0]);
}

#[test]
fn floor_signs_of_zero_and_small_values() {
    let v = v4(-0.0, 0.5, -0.5, 0.0).floor();
    assert_eq!(v.x(), (-0.0f32).to_bits());
    assert_eq!(v.y(), 0.0f32.to_bits());
    assert_eq!(v.z(), (-1.0f32).to_bits());
    assert_eq!(v.w(), 0.0f32.to_bits());
    let t = v4(f32::from_bits(1), -f32::from_bits(1), -1.5, -1.0).floor();
    assert_eq!(parts(&t), [0.0, -1.0, -2.0, -1.0]);
}

#[test]
fn floor_large_and_special_values_unchanged() {
    let v = v4(1.0e10, -8388609.0, f32::INFINITY, f32::NEG_INFINITY).floor();
    assert_eq!(parts(&v), [1.0e10, -8388609.0, f32::INFINITY, f32::NEG_INFINITY]);
    let n = v4(f32::NAN, 2.5, -2.5, 8388607.5).floor();
    assert!(f32::from_bits(n.x()).is_nan());
    assert_eq!([n.y(), n.z(), n.w()], [2.0f32.to_bits(), (-3.0f32).to_bits(), 8388607.0f32.to_bits()]);
}

#[test]
fn floor_agrees_with_std_on_a_sweep() {
    let mut b: u32 = 0;
    loop {
        let x = f32::from_bits(b);
        if !x.is_nan() {
            let got = v4(x, -x, x * 0.75, -x * 0.75).floor();
            let want = [x.floor(), (-x).floor(), (x * 0.75).floor(), (-x * 0.75).floor()];
            let g = [got.x(), got.y(), got.z(), got.w()];
            for k in 0..4 {
                assert_eq!(g[k], want[k].to_bits(), "lane {} of {:e}", k, x);
            }
        }
        match b.checked_add(0x0001_2345) {
            Some(n) => b = n,
            None => break,
        }
    }
}

#[test]
fn floor_is_idempotent() {
    let vals = [0.2f32, 1.1, -2.9, 99.9, -0.0, -0.3, 1.0e-40, -1.0e-40, 3.0e9, -16777215.5];
    for chunk in vals.chunks(2) {
        let v = v4(chunk[0], chunk[1], -chunk[0], -chunk[1]);
        let f = v.floor();
        let ff = f.floor();
        assert_eq!([ff.x(), ff.y(), ff.z(), ff.w()], [f.x(), f.y(), f.z(), f.w()]);
    }
}

#[test]
fn abs_example() {
    let v = v4(0.2, 1.1, -2.9, 99.9).abs();
    assert_eq!(parts(&v), [0.2, 1.1, 2.9, 99.9]);
    let z = v4(-0.0, f32::NEG_INFINITY, -1.0e-40, 3.0).abs();
    assert_eq!(z.x(), 0.0f32.to_bits());
    assert_eq!(parts(&z)[1..], [f32::INFINITY, 1.0e-40, 3.0]);
}

#[test]
fn neg_example() {
    let v = v4(0.2, 1.1, -2.9, 99.9).neg();
    assert_eq!(parts(&v), [-0.2, -1.1, 2.9, -99.9]);
    let z = v4(0.0, -0.0, 1.0, -1.0).neg();
    assert_eq!(z.x(), (-0.0f32).to_bits());
    assert_eq!(z.y(), 0.0f32.to_bits());
    let back = v.neg();
    assert_eq!(parts(&back), [0.2, 1.1, -2.9, 99.9]);
}

#[test]
fn sum_with_negation_is_zero() {
    let a = v4(0.2, 1.1, -2.9, 99.9);
    let n = parts(&a.neg());
    let p = parts(&a);
    for k in 0..4 {
        assert!(close(p[k] + n[k], 0.0, 1.0e-6));
        assert_eq!(p[k] + 0.0, p[k]);
    }
}

#[test]
fn fract_stays_in_unit_range() {
    let v = v4(0.2, 1.1, -2.9, 99.9);
    let f = parts(&v.floor());
    let p = parts(&v);
    let fr = [p[0] - f[0], p[1] - f[1], p[2] - f[2], p[3] - f[3]];
    assert!(close(fr[0], 0.2, 1.0e-6));
    assert!(close(fr[1], 0.1, 1.0e-6));
    assert!(close(fr[2], 0.1, 1.0e-6));
    assert!(close(fr[3], 0.9, 1.0e-5));
    for x in [-1.0e7f32, -123.456, -0.001, 0.0, 0.999, 4096.75, 1.0e7] {
        let fx = x - f32::from_bits(Vector4::from1(x.to_bits()).floor().x());
        assert!(fx >= 0.0 && fx < 1.0 + 1.0e-5, "{}", x);
    }
}

#[test]
fn modulo_example() {
    let v = v4(0.2, 1.1, -2.9, 99.9);
    let m = glsl_mod(&v, &Vector4::from1((-1.8f32).to_bits()));
    assert!(close(m[0], -1.6, 1.0e-6));
    assert!(close(m[1], -0.7, 1.0e-6));
    assert!(close(m[2], -1.1, 1.0e-6));
    assert!(close(m[3], -0.9, 1.0e-5));
}

#[test]
fn modulo_follows_divisor_sign() {
    let v = v4(5.5, -5.5, 5.5, -5.5);
    let d = v4(2.0, 2.0, -2.0, -2.0);
    let m = glsl_mod(&v, &d);
    assert_eq!(m, [1.5, 0.5, -0.5, -1.5]);
}

#[test]
fn modulo_euclidean_example() {
    let v = v4(0.2, 1.1, -2.9, 99.9);
    let m = euclid_mod(&v, &Vector4::from1((-1.8f32).to_bits()));
    assert!(close(m[0], 0.2, 1.0e-6));
    assert!(close(m[1], 1.1, 1.0e-6));
    assert!(close(m[2], 0.7, 1.0e-6));
    assert!(close(m[3], 0.9, 1.0e-5));
}

#[test]
fn modulo_euclidean_is_non_negative() {
    let v = v4(5.5, -5.5, 5.5, -5.5);
    let d = v4(2.0, 2.0, -2.0, -2.0);
    let m = euclid_mod(&v, &d);
    assert_eq!(m, [1.5, 0.5, 1.5, 0.5]);
    assert!(m.iter().all(|x| *x >= 0.0));
}

#[test]
fn euclidean_offset_per_lane() {
    let ret = v4(-0.5, 0.5, -0.0, f32::NAN);
    let d = v4(-3.0, -3.0, -3.0, -3.0);
    let off = ret.euclidean_offset(&d);
    assert_eq!(parts(&off)[..3], [3.0, 0.0, 0.0]);
    assert_eq!(off.w(), 0.0f32.to_bits());
    assert_eq!(off.y(), 0.0f32.to_bits());
}

#[test]
fn distance_example() {
    let a = parts(&v4(0.2, 1.1, -2.9, 99.9));
    let b = parts(&v4(0.9, 1.8, 2.9, -14.4));
    let d: Vec<f32> = (0..4).map(|k| (a[k] - b[k]) * (a[k] - b[k])).collect();
    let sq = (d[0] + d[1]) + (d[2] + d[3]);
    assert!(close(sq, 13099.11, 1.0e-2));
    assert!(close(sq.sqrt(), 114.45134, 1.0e-5));
}

#[test]
fn add_and_mul_commute_sub_and_div_do_not() {
    let a = parts(&v4(0.2, 1.1, -2.9, 99.9));
    let b = parts(&v4(0.9, 1.8, 2.0, -14.4));
    for k in 0..4 {
        assert_eq!(a[k] + b[k], b[k] + a[k]);
        assert_eq!(a[k] * b[k], b[k] * a[k]);
        assert_ne!(a[k] - b[k], b[k] - a[k]);
        assert_ne!(a[k] / b[k], b[k] / a[k]);
    }
}
