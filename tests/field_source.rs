use metaballs::field_source::{negate, reflect_velocity};

#[test]
fn negate_flips_the_sign() {
    for v in [0.0f32, -0.0, 1.5, -2.25, f32::INFINITY, f32::MIN_POSITIVE] {
        assert_eq!(negate(v.to_bits()), (-v).to_bits());
    }
}

#[test]
fn velocity_reverses_outside_the_bounds() {
    let half = 100.0f32.to_bits();
    let v = 0.4f32.to_bits();
    assert_eq!(reflect_velocity(100.5f32.to_bits(), v, half), (-0.4f32).to_bits());
    assert_eq!(reflect_velocity((-100.5f32).to_bits(), v, half), (-0.4f32).to_bits());
    assert_eq!(reflect_velocity((-0.3f32).to_bits(), (-0.3f32).to_bits(), half), (-0.3f32).to_bits());
}

#[test]
fn velocity_is_kept_on_the_bounds() {
    let half = 100.0f32.to_bits();
    let v = (-1.1f32).to_bits();
    assert_eq!(reflect_velocity(100.0f32.to_bits(), v, half), v);
    assert_eq!(reflect_velocity((-100.0f32).to_bits(), v, half), v);
    assert_eq!(reflect_velocity(0.0f32.to_bits(), v, half), v);
}

#[test]
fn reflection_agrees_with_float_comparisons() {
    let half = 50.0f32;
    for p in [-60.0f32, -50.0, -49.9, 0.0, 49.9, 50.0, 50.1, 1.0e9] {
        for v in [0.87f32, -0.2, 1.111] {
            let expected = if p > half || p < -half { v * -1.0 } else { v };
            assert_eq!(reflect_velocity(p.to_bits(), v.to_bits(), half.to_bits()), expected.to_bits());
        }
    }
}
