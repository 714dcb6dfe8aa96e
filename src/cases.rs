//! The marching-squares case table: which triangles a cell emits for each
//! topology code, over the cell's four corner points.

use vstd::prelude::*;

verus! {

/// A point of the output mesh, named by the grid points it comes from.
#[derive(Debug, Clone, Copy, PartialEq, Eq, Structural)]
pub enum MeshPoint {
    /// The grid point with this index.
    Point(u32),
    /// The crossing on the edge from grid point `near` to grid point `far`:
    /// `lerp(pos[near], pos[far], v[far] / (v[near] + v[far]))`.
    Crossing(u32, u32),
}

/// A triangle of the output mesh, corners in emission order.
#[derive(Debug, Clone, Copy, PartialEq, Eq, Structural)]
pub struct Triangle {
    pub a: MeshPoint,
    pub b: MeshPoint,
    pub c: MeshPoint,
}

pub open spec fn tri(a: MeshPoint, b: MeshPoint, c: MeshPoint) -> Triangle {
    Triangle { a, b, c }
}

pub open spec fn pt(p: u32) -> MeshPoint {
    MeshPoint::Point(p)
}

pub open spec fn cross(near: u32, far: u32) -> MeshPoint {
    MeshPoint::Crossing(near, far)
}

/// One corner above, at `p2`: the triangle that clips it.
pub open spec fn corner_tris(p1: u32, p2: u32, p3: u32) -> Seq<Triangle> {
    seq![tri(cross(p2, p3), pt(p2), cross(p1, p2))]
}

/// One corner below, at `p1`: three triangles filling the rest of the quad.
pub open spec fn no_corner_tris(p1: u32, p2: u32, p3: u32, p4: u32) -> Seq<Triangle> {
    seq![
        tri(cross(p1, p4), pt(p4), pt(p3)),
        tri(cross(p1, p2), cross(p1, p4), pt(p3)),
        tri(pt(p2), cross(p1, p2), pt(p3)),
    ]
}

/// Two adjacent corners above, `p3` and `p4`: two triangles up to the
/// crossings on the two edges that leave them.
pub open spec fn split_tris(p1: u32, p2: u32, p3: u32, p4: u32) -> Seq<Triangle> {
    seq![tri(cross(p1, p4), pt(p4), pt(p3)), tri(cross(p2, p3), cross(p1, p4), pt(p3))]
}

/// Two opposite corners above, `p2` and `p4`: one triangle at each, never
/// joined (the saddle is always resolved this way).
pub open spec fn diagonal_tris(p1: u32, p2: u32, p3: u32, p4: u32) -> Seq<Triangle> {
    seq![tri(cross(p1, p4), pt(p4), cross(p3, p4)), tri(cross(p1, p2), cross(p2, p3), pt(p2))]
}

/// The triangles of a cell with corners a = (i, j), b = (i + 1, j),
/// c = (i + 1, j + 1), d = (i, j + 1) and the given topology code; nothing
/// for codes 0 and 15 (the latter are merged into rectangles).
pub open spec fn case_tris(code: int, a: u32, b: u32, c: u32, d: u32) -> Seq<Triangle> {
    if code == 1 {
        corner_tris(c, d, a)
    } else if code == 2 {
        corner_tris(b, c, d)
    } else if code == 4 {
        corner_tris(a, b, c)
    } else if code == 8 {
        corner_tris(d, a, b)
    } else if code == 7 {
        no_corner_tris(a, b, c, d)
    } else if code == 11 {
        no_corner_tris(b, c, d, a)
    } else if code == 13 {
        no_corner_tris(c, d, a, b)
    } else if code == 14 {
        no_corner_tris(d, a, b, c)
    } else if code == 3 {
        split_tris(a, b, c, d)
    } else if code == 6 {
        split_tris(d, a, b, c)
    } else if code == 9 {
        split_tris(b, c, d, a)
    } else if code == 12 {
        split_tris(c, d, a, b)
    } else if code == 5 {
        diagonal_tris(a, b, c, d)
    } else if code == 10 {
        diagonal_tris(b, c, d, a)
    } else {
        Seq::empty()
    }
}

/// The grid point that a mesh point is placed from lies below `n`.
pub open spec fn point_below(p: MeshPoint, n: int) -> bool {
    match p {
        MeshPoint::Point(q) => q < n,
        MeshPoint::Crossing(near, far) => near < n && far < n,
    }
}

pub open spec fn triangle_below(t: Triangle, n: int) -> bool {
    point_below(t.a, n) && point_below(t.b, n) && point_below(t.c, n)
}

pub open spec fn all_below(ts: Seq<Triangle>, n: int) -> bool {
    forall|k: int| 0 <= k < ts.len() ==> triangle_below(#[trigger] ts[k], n)
}

fn push_tri(tris: &mut Vec<Triangle>, a: MeshPoint, b: MeshPoint, c: MeshPoint)
    ensures
        final(tris)@ == old(tris)@.push(tri(a, b, c)),
{
    tris.push(Triangle { a, b, c });
}

/// Emits the triangle of a cell with one corner, `p2`, above.
pub fn corner(tris: &mut Vec<Triangle>, p1: u32, p2: u32, p3: u32)
    ensures
        final(tris)@ == old(tris)@ + corner_tris(p1, p2, p3),
{
    push_tri(tris, MeshPoint::Crossing(p2, p3), MeshPoint::Point(p2), MeshPoint::Crossing(p1, p2));
    proof {
        assert(final(tris)@ =~= old(tris)@ + corner_tris(p1, p2, p3));
    }
}

/// Emits the triangles of a cell with one corner, `p1`, below.
pub fn no_corner(tris: &mut Vec<Triangle>, p1: u32, p2: u32, p3: u32, p4: u32)
    ensures
        final(tris)@ == old(tris)@ + no_corner_tris(p1, p2, p3, p4),
{
    let i1 = MeshPoint::Crossing(p1, p2);
    let i2 = MeshPoint::Crossing(p1, p4);
    push_tri(tris, i2, MeshPoint::Point(p4), MeshPoint::Point(p3));
    push_tri(tris, i1, i2, MeshPoint::Point(p3));
    push_tri(tris, MeshPoint::Point(p2), i1, MeshPoint::Point(p3));
    proof {
        assert(final(tris)@ =~= old(tris)@ + no_corner_tris(p1, p2, p3, p4));
    }
}

/// Emits the triangles of a cell with two adjacent corners, `p3` and `p4`,
/// above.
pub fn split(tris: &mut Vec<Triangle>, p1: u32, p2: u32, p3: u32, p4: u32)
    ensures
        final(tris)@ == old(tris)@ + split_tris(p1, p2, p3, p4),
{
    let i1 = MeshPoint::Crossing(p1, p4);
    let i2 = MeshPoint::Crossing(p2, p3);
    push_tri(tris, i1, MeshPoint::Point(p4), MeshPoint::Point(p3));
    push_tri(tris, i2, i1, MeshPoint::Point(p3));
    proof {
        assert(final(tris)@ =~= old(tris)@ + split_tris(p1, p2, p3, p4));
    }
}

/// Emits the triangles of a saddle cell, corners `p2` and `p4` above.
pub fn diagonal(tris: &mut Vec<Triangle>, p1: u32, p2: u32, p3: u32, p4: u32)
    ensures
        final(tris)@ == old(tris)@ + diagonal_tris(p1, p2, p3, p4),
{
    let i1 = MeshPoint::Crossing(p1, p2);
    let i2 = MeshPoint::Crossing(p2, p3);
    let i3 = MeshPoint::Crossing(p3, p4);
    let i4 = MeshPoint::Crossing(p1, p4);
    push_tri(tris, i4, MeshPoint::Point(p4), i3);
    push_tri(tris, i1, i2, MeshPoint::Point(p2));
    proof {
        assert(final(tris)@ =~= old(tris)@ + diagonal_tris(p1, p2, p3, p4));
    }
}

/// Emits the triangles of a cell by its topology code (none for 0 and 15).
pub fn cell_triangles(tris: &mut Vec<Triangle>, code: u8, a: u32, b: u32, c: u32, d: u32)
    ensures
        final(tris)@ == old(tris)@ + case_tris(code as int, a, b, c, d),
{
    match code {
        1 => corner(tris, c, d, a),
        2 => corner(tris, b, c, d),
        4 => corner(tris, a, b, c),
        8 => corner(tris, d, a, b),
        7 => no_corner(tris, a, b, c, d),
        11 => no_corner(tris, b, c, d, a),
        13 => no_corner(tris, c, d, a, b),
        14 => no_corner(tris, d, a, b, c),
        3 => split(tris, a, b, c, d),
        6 => split(tris, d, a, b, c),
        9 => split(tris, b, c, d, a),
        12 => split(tris, c, d, a, b),
        5 => diagonal(tris, a, b, c, d),
        10 => diagonal(tris, b, c, d, a),
        _ => {
            proof {
                assert(old(tris)@ + case_tris(code as int, a, b, c, d) =~= old(tris)@);
            }
        },
    }
}

/// Every point of a cell's triangles comes from one of its corners.
pub proof fn lemma_case_tris_below(code: int, a: u32, b: u32, c: u32, d: u32, n: int)
    requires
        a < n,
        b < n,
        c < n,
        d < n,
    ensures
        all_below(case_tris(code, a, b, c, d), n),
{
}

} // verus!
