use metaballs::grid::Grid;
use metaballs::threshold_layer::ThresholdLayer;

fn grid_with(width: u32, height: u32, values: &[f32]) -> Grid {
    let mut g = Grid::new(width, height, 1.0f32.to_bits()).unwrap();
    g.update(values.iter().map(|v| v.to_bits()).collect());
    g
}

#[test]
fn new_layer_is_all_below() {
    let l = ThresholdLayer::new(4, 2, 0.5f32.to_bits());
    assert_eq!(l.threshold, 0.5f32.to_bits());
    assert_eq!(l.normalized_values, vec![false; 8]);
}

#[test]
fn classification_is_strictly_greater() {
    let g = grid_with(2, 2, &[0.5, 0.6, 0.4, f32::NAN]);
    let mut l = ThresholdLayer::new(2, 2, 0.5f32.to_bits());
    l.update_values(&g);
    assert_eq!(l.normalized_values, vec![false, true, false, false]);
}

#[test]
fn classification_matches_comparison_for_every_threshold() {
    let values = [0.0f32, -0.0, 0.1, 0.2, 0.3, -5.0, 7.5, f32::INFINITY];
    let g = grid_with(4, 2, &values);
    for t in [0.0f32, -0.0, 0.2, -1.0, 10.0, f32::NEG_INFINITY] {
        let mut l = ThresholdLayer::new(4, 2, t.to_bits());
        l.update_values(&g);
        for (k, v) in values.iter().enumerate() {
            assert_eq!(l.normalized_values[k], *v > t);
        }
    }
}

#[test]
fn iso_code_packs_corners() {
    // 4 x 4 grid; cell (0, 0) has corners 0, 1, 5, 4.
    let mut vals = [0.0f32; 16];
    vals[0] = 1.0; // a
    vals[5] = 1.0; // c
    let g = grid_with(4, 4, &vals);
    let mut l = ThresholdLayer::new(4, 4, 0.5f32.to_bits());
    l.update_values(&g);
    assert_eq!(l.calculate_iso(&g, 0, 0), 0b1010);
    vals[1] = 1.0; // b
    vals[4] = 1.0; // d
    let g = grid_with(4, 4, &vals);
    l.update_values(&g);
    assert_eq!(l.calculate_iso(&g, 0, 0), 15);
}

#[test]
fn iso_code_boundary_is_asymmetric() {
    let g = grid_with(4, 4, &[1.0f32; 16]);
    let mut l = ThresholdLayer::new(4, 4, 0.5f32.to_bits());
    l.update_values(&g);
    // Column width - 2 already gives 0, row height - 2 does not.
    assert_eq!(l.calculate_iso(&g, 2, 0), 0);
    assert_eq!(l.calculate_iso(&g, 1, 2), 15);
    assert_eq!(l.calculate_iso(&g, 1, 3), 0);
    assert_eq!(l.calculate_iso(&g, 100, 100), 0);
}
