use metaballs::cases::{cell_triangles, MeshPoint, Triangle};
use metaballs::grid::Grid;
use metaballs::marching_squares::{Coords, MarchingSquares};
use metaballs::threshold_layer::ThresholdLayer;
use metaballs::triangulation::{triangulate, Rect, Triangulation};

fn position(g: &Grid, k: u32) -> [f32; 3] {
    let (x, y) = g.lattice_point(k);
    let s = f32::from_bits(g.spacing);
    [(x as f32 + 0.5) * s, (y as f32 + 0.5) * s, 0.0 * s]
}

fn coords(g: &Grid, p: MeshPoint) -> Coords {
    let v = match p {
        MeshPoint::Point(k) => position(g, k),
        MeshPoint::Crossing(near, far) => {
            let a = position(g, near);
            let b = position(g, far);
            let vn = f32::from_bits(g.values[near as usize]);
            let vf = f32::from_bits(g.values[far as usize]);
            let t = vf / (vn + vf);
            [a[0] + (b[0] - a[0]) * t, a[1] + (b[1] - a[1]) * t, a[2] + (b[2] - a[2]) * t]
        }
    };
    (v[0].to_bits(), v[1].to_bits(), v[2].to_bits())
}

fn corner_coords(g: &Grid, tris: &[Triangle]) -> Vec<[Coords; 3]> {
    tris.iter()
        .map(|t| [coords(g, t.a), coords(g, t.b), coords(g, t.c)])
        .collect()
}

/// A grid whose samples are `1 / (x^2 + y^2)`: one source of radius 1 at
/// the origin.
fn one_source_grid(width: u32, height: u32) -> Grid {
    let mut g = Grid::new(width, height, 1.0f32.to_bits()).unwrap();
    let values = (0..width * height)
        .map(|k| {
            let p = position(&g, k);
            (1.0f32 / (p[0] * p[0] + p[1] * p[1])).to_bits()
        })
        .collect();
    g.update(values);
    g
}

fn layer_for(g: &Grid, threshold: f32) -> ThresholdLayer {
    let mut l = ThresholdLayer::new(g.width, g.height, threshold.to_bits());
    l.update_values(g);
    l
}

fn grid_from_mask(width: u32, height: u32, mask: &[bool]) -> Grid {
    let mut g = Grid::new(width, height, 1.0f32.to_bits()).unwrap();
    g.update(mask.iter().map(|b| if *b { 1.0f32 } else { 0.0 }.to_bits()).collect());
    g
}

#[test]
fn case_table_triangle_counts() {
    let expected = [0, 1, 1, 2, 1, 2, 2, 3, 1, 2, 2, 3, 2, 3, 3, 0];
    for code in 0u8..16 {
        let mut tris = Vec::new();
        cell_triangles(&mut tris, code, 0, 1, 5, 4);
        assert_eq!(tris.len(), expected[code as usize], "code {}", code);
    }
}

#[test]
fn corner_case_clips_the_corner() {
    let mut tris = Vec::new();
    cell_triangles(&mut tris, 2, 0, 1, 5, 4);
    assert_eq!(
        tris,
        vec![Triangle {
            a: MeshPoint::Crossing(5, 4),
            b: MeshPoint::Point(5),
            c: MeshPoint::Crossing(1, 5),
        }]
    );
}

#[test]
fn saddle_is_resolved_by_fixed_connectivity() {
    let mut tris = Vec::new();
    cell_triangles(&mut tris, 5, 0, 1, 5, 4);
    assert_eq!(
        tris,
        vec![
            Triangle {
                a: MeshPoint::Crossing(0, 4),
                b: MeshPoint::Point(4),
                c: MeshPoint::Crossing(5, 4),
            },
            Triangle {
                a: MeshPoint::Crossing(0, 1),
                b: MeshPoint::Crossing(1, 5),
                c: MeshPoint::Point(1),
            },
        ]
    );
}

#[test]
fn one_source_on_four_by_four_grid() {
    let g = one_source_grid(4, 4);
    let mut l = ThresholdLayer::new(4, 4, 0.5f32.to_bits());
    let t = l.update_mesh(&g);
    let mask: Vec<bool> = (0..16).map(|k| l.normalized_values[k]).collect();
    let inside = [5, 6, 9, 10];
    for k in 0..16 {
        assert_eq!(mask[k], inside.contains(&k), "point {}", k);
    }
    let codes: Vec<u8> = (0..3)
        .flat_map(|j| (0..3).map(move |i| (i, j)))
        .map(|(i, j)| l.calculate_iso(&g, i, j))
        .collect();
    assert_eq!(codes, vec![2, 3, 0, 6, 15, 0, 4, 12, 0]);
    let per_code = |c: u8| match c {
        0 => 0,
        1 | 2 | 4 | 8 => 1,
        7 | 11 | 13 | 14 => 3,
        _ => 2,
    };
    let expected: usize = codes.iter().map(|c| per_code(*c)).sum();
    assert_eq!(expected, 10);
    assert_eq!(t.triangles.len(), expected);
    assert_eq!(t.rects, vec![Rect { i: 1, j: 1, width: 1, height: 1 }]);

    let mesh = MarchingSquares::weld(&corner_coords(&g, &t.triangles));
    assert!(!mesh.vertices().is_empty());
    assert_eq!(mesh.indices().len(), 3 * expected);
    assert!(mesh.indices().iter().all(|i| (*i as usize) < mesh.vertices().len()));
}

#[test]
fn uniform_interior_merges_into_few_rectangles() {
    let g = grid_from_mask(8, 8, &[true; 64]);
    let l = layer_for(&g, 0.5);
    let t = triangulate(&g, &l);
    assert_eq!(
        t.rects,
        vec![
            Rect { i: 0, j: 0, width: 6, height: 6 },
            Rect { i: 0, j: 6, width: 6, height: 1 },
        ]
    );
    assert_eq!(t.triangles.len(), 4);
    assert_eq!(
        t.triangles[0],
        Triangle { a: MeshPoint::Point(0), b: MeshPoint::Point(48), c: MeshPoint::Point(54) }
    );
}

fn coverage(t: &Triangulation, width: u32, height: u32) -> Vec<u32> {
    let mut hits = vec![0u32; (width * height) as usize];
    for r in &t.rects {
        for y in r.j..r.j + r.height {
            for x in r.i..r.i + r.width {
                hits[(x + y * width) as usize] += 1;
            }
        }
    }
    hits
}

#[test]
fn merged_rectangles_cover_exactly_the_full_cells() {
    let (w, h) = (10u32, 8u32);
    let mut mask = vec![false; (w * h) as usize];
    for y in 0..h {
        for x in 0..w {
            mask[(x + y * w) as usize] = (x * 7 + y * 3) % 5 != 0 || (x > 2 && x < 7);
        }
    }
    let g = grid_from_mask(w, h, &mask);
    let l = layer_for(&g, 0.5);
    let t = triangulate(&g, &l);
    let hits = coverage(&t, w, h);
    for y in 0..h - 1 {
        for x in 0..w - 1 {
            let full = l.calculate_iso(&g, x, y) == 15;
            assert_eq!(hits[(x + y * w) as usize], if full { 1 } else { 0 }, "cell ({}, {})", x, y);
        }
    }
    assert!(t.rects.len() >= 2);
}

#[test]
fn merge_stops_at_consumed_cells() {
    // Points (0, 0) and (0, 1) are outside. The merge started at (1, 0)
    // takes rows 0 to 3, so the run that starts at (0, 2) stops at once,
    // and the one at (0, 4) may take the whole row.
    let (w, h) = (6u32, 6u32);
    let mut mask = vec![true; 36];
    mask[0] = false;
    mask[6] = false;
    let g = grid_from_mask(w, h, &mask);
    let l = layer_for(&g, 0.5);
    let t = triangulate(&g, &l);
    let hits = coverage(&t, w, h);
    assert!(hits.iter().all(|n| *n <= 1));
    assert_eq!(
        t.rects,
        vec![
            Rect { i: 1, j: 0, width: 3, height: 4 },
            Rect { i: 0, j: 2, width: 1, height: 2 },
            Rect { i: 0, j: 4, width: 4, height: 1 },
        ]
    );
}

#[test]
fn rebuilding_gives_identical_buffers() {
    let g = one_source_grid(8, 8);
    let mut l = ThresholdLayer::new(8, 8, 0.1f32.to_bits());
    let first = l.update_mesh(&g);
    let second = l.update_mesh(&g);
    assert_eq!(first.triangles, second.triangles);
    assert_eq!(first.rects, second.rects);
    let m1 = MarchingSquares::weld(&corner_coords(&g, &first.triangles));
    let m2 = MarchingSquares::weld(&corner_coords(&g, &second.triangles));
    assert_eq!(m1.vertices(), m2.vertices());
    assert_eq!(m1.indices(), m2.indices());
    assert!(!m1.indices().is_empty());
}

#[test]
fn adjacent_cells_share_welded_vertices() {
    let g = one_source_grid(8, 8);
    let l = layer_for(&g, 0.1);
    let t = triangulate(&g, &l);
    let corners = corner_coords(&g, &t.triangles);
    let mesh = MarchingSquares::weld(&corners);
    let flat: Vec<Coords> = corners.iter().flat_map(|c| c.iter().copied()).collect();
    assert_eq!(flat.len(), mesh.indices().len());
    for a in 0..flat.len() {
        for b in 0..flat.len() {
            assert_eq!(flat[a] == flat[b], mesh.indices()[a] == mesh.indices()[b]);
        }
        assert_eq!(mesh.vertices()[mesh.indices()[a] as usize], flat[a]);
    }
    assert!(mesh.vertices().len() < flat.len());
}

#[test]
fn weld_reuses_exact_matches_only() {
    let p = (1.0f32.to_bits(), 2.0f32.to_bits(), 0.0f32.to_bits());
    let q = (1.0f32.to_bits(), 2.0f32.to_bits(), (-0.0f32).to_bits());
    let r = (3.0f32.to_bits(), 2.0f32.to_bits(), 0.0f32.to_bits());
    let mesh = MarchingSquares::weld(&vec![[p, q, r], [r, p, p]]);
    assert_eq!(mesh.vertices(), &vec![p, q, r]);
    assert_eq!(mesh.indices(), &vec![0, 1, 2, 2, 0, 0]);
}

#[test]
fn insert_vertices_appends_indices() {
    let p = (1, 2, 3);
    let q = (4, 5, 6);
    let mut mesh = MarchingSquares::new();
    mesh.insert_vertices([p, q, p]);
    mesh.insert_vertices([q, q, (7, 8, 9)]);
    assert_eq!(mesh.vertices(), &vec![p, q, (7, 8, 9)]);
    assert_eq!(mesh.indices(), &vec![0, 1, 0, 1, 1, 2]);
}
