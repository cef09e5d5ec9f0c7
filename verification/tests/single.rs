use fluids::single::Single;

fn s(v: f32) -> Single {
    Single { bits: v.to_bits() }
}

fn f(v: Single) -> f32 {
    f32::from_bits(v.bits)
}

fn numbers() -> Vec<f32> {
    let mut list = vec![
        0.0,
        -0.0,
        1.0,
        -1.0,
        0.5,
        -0.5,
        1.5,
        2.0,
        2.5,
        -2.5,
        0.1,
        1.0e-6,
        1.0e-45,
        -1.0e-45,
        3.4e38,
        -3.4e38,
        16777216.0,
        16777217.0,
        2147483520.0,
        2147483648.0,
        -2147483648.0,
        -2147483904.0,
        4294967040.0,
        4294967296.0,
        1.0e19,
        2.0e19,
        f32::INFINITY,
        f32::NEG_INFINITY,
        f32::NAN,
    ];
    let mut seed = 12345u32;
    for _ in 0..200 {
        seed = seed.wrapping_mul(1664525).wrapping_add(1013904223);
        list.push(f32::from_bits(seed));
        list.push((seed >> 8) as f32 / 1000.0);
    }
    list
}

#[test]
fn comparisons_are_the_processors() {
    for &a in &numbers() {
        assert_eq!(s(a).is_nan(), a.is_nan());
        assert_eq!(s(a).is_finite(), a.is_finite());
        for &b in &numbers() {
            assert_eq!(s(a).lt(s(b)), a < b, "{a} < {b}");
            assert_eq!(s(a).le(s(b)), a <= b, "{a} <= {b}");
            assert_eq!(s(a).gt(s(b)), a > b, "{a} > {b}");
            assert_eq!(s(a).ge(s(b)), a >= b, "{a} >= {b}");
            assert_eq!(s(a).equals(s(b)), a == b, "{a} == {b}");
            assert_eq!(
                s(a).is_within(s(-1.0), s(b)),
                (-1.0..=b).contains(&a),
                "{a} in -1..={b}"
            );
        }
    }
}

#[test]
fn signs_and_extremes_are_exact() {
    for &a in &numbers() {
        assert_eq!(f(s(a).neg()).to_bits(), (-a).to_bits());
        assert_eq!(f(s(a).abs()).to_bits(), a.abs().to_bits());
        for &b in &numbers() {
            if a.is_nan() && b.is_nan() {
                continue;
            }
            assert_eq!(f(s(a).min(s(b))), a.min(b), "min {a} {b}");
            assert_eq!(f(s(a).max(s(b))), a.max(b), "max {a} {b}");
        }
    }
}

#[test]
fn rounding_saturates_as_casts_do() {
    for &a in &numbers() {
        assert_eq!(s(a).to_i32(), a as i32, "{a} as i32");
        assert_eq!(s(a).ceil_i32(), a.ceil() as i32, "ceil {a} as i32");
        assert_eq!(s(a).floor_u32(), a.floor().max(0.0) as u32, "floor {a}");
        assert_eq!(s(a).floor_usize(), a.floor().max(0.0) as usize, "floor {a}");
        assert_eq!(s(a).ceil_u32(), a.ceil().max(0.0) as u32, "ceil {a}");
        if !a.is_nan() {
            assert_eq!(s(a).whole_part(), a.abs() as u64, "whole {a}");
            assert_eq!(s(a).ceiling_part(), a.abs().ceil() as u64, "ceiling {a}");
        }
    }
}
