use metaballs::grid::{Grid, GridError};

#[test]
fn new_grid_has_one_zero_sample_per_point() {
    let g = Grid::new(4, 6, 0.5f32.to_bits()).unwrap();
    assert_eq!(g.width, 4);
    assert_eq!(g.height, 6);
    assert_eq!(g.spacing, 0.5f32.to_bits());
    assert_eq!(g.values.len(), 24);
    assert!(g.values.iter().all(|v| *v == 0));
}

#[test]
fn new_grid_rejects_small_dimensions() {
    assert_eq!(Grid::new(1, 4, 0).err(), Some(GridError::TooSmall));
    assert_eq!(Grid::new(4, 0, 0).err(), Some(GridError::TooSmall));
}

#[test]
fn new_grid_rejects_odd_dimensions() {
    assert_eq!(Grid::new(3, 4, 0).err(), Some(GridError::Odd));
    assert_eq!(Grid::new(4, 5, 0).err(), Some(GridError::Odd));
}

#[test]
fn new_grid_rejects_too_many_points() {
    assert_eq!(Grid::new(65536, 65536, 0).err(), Some(GridError::TooLarge));
    assert!(Grid::new(2, 2, 0).is_ok());
}

#[test]
fn lattice_points_run_left_to_right_and_top_down() {
    let g = Grid::new(4, 4, 0).unwrap();
    assert_eq!(g.lattice_point(0), (-2, 1));
    assert_eq!(g.lattice_point(3), (1, 1));
    assert_eq!(g.lattice_point(4), (-2, 0));
    assert_eq!(g.lattice_point(15), (1, -2));
}

#[test]
fn update_replaces_every_sample() {
    let mut g = Grid::new(2, 2, 0).unwrap();
    g.update(vec![1, 2, 3, 4]);
    assert_eq!(g.values, vec![1, 2, 3, 4]);
    assert_eq!(g.width, 2);
}
