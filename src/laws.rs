//! Properties that relate several calls of the library.

use vstd::prelude::*;

use crate::cases::Triangle;
use crate::marching_squares::{corners_of, dedup, indices_in, Coords, MarchingSquares};
use crate::threshold_layer::classify;
use crate::triangulation::{triangulation_of, Rect};

verus! {

/// Building a layer twice from unchanged samples and threshold gives the
/// same triangles and rectangles, and welding the same corners twice gives
/// the same vertex and index buffers: nothing is carried from one build to
/// the next.
pub proof fn lemma_build_idempotent(
    values: Seq<u32>,
    threshold: u32,
    width: int,
    height: int,
    first: (Seq<Triangle>, Seq<Rect>),
    second: (Seq<Triangle>, Seq<Rect>),
    corners: Seq<[Coords; 3]>,
    first_mesh: MarchingSquares,
    second_mesh: MarchingSquares,
)
    requires
        first == triangulation_of(classify(values, threshold), width, height),
        second == triangulation_of(classify(values, threshold), width, height),
        first_mesh.vertices_view() == dedup(corners_of(corners)),
        first_mesh.indices_view() == indices_in(first_mesh.vertices_view(), corners_of(corners)),
        second_mesh.vertices_view() == dedup(corners_of(corners)),
        second_mesh.indices_view() == indices_in(second_mesh.vertices_view(), corners_of(corners)),
    ensures
        first == second,
        first_mesh.vertices_view() == second_mesh.vertices_view(),
        first_mesh.indices_view() == second_mesh.indices_view(),
{
}

} // verus!
