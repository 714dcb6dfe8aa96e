//! One build of the mesh in symbolic form: every cell of the grid visited
//! in row order, classified, and triangulated by the case table, with the
//! fully-inside cells merged greedily into rectangles.

use vstd::prelude::*;

use crate::cases::{
    all_below, case_tris, cell_triangles, lemma_case_tris_below, pt, tri, triangle_below, MeshPoint,
    Triangle,
};
use crate::grid::{point_index, valid_dims, Grid};
use crate::threshold_layer::{iso_code, ThresholdLayer};

verus! {

/// A block of cells: columns `i .. i + width`, rows `j .. j + height`.
#[derive(Debug, Clone, Copy, PartialEq, Eq, Structural)]
pub struct Rect {
    pub i: u32,
    pub j: u32,
    pub width: u32,
    pub height: u32,
}

/// The symbolic mesh of one layer: its triangles in emission order, and the
/// rectangles that the fully-inside cells were merged into.
pub struct Triangulation {
    pub triangles: Vec<Triangle>,
    pub rects: Vec<Rect>,
}

/// A cell identified by (column, row).
pub type Cell = (int, int);

/// The cells of a rectangle.
pub open spec fn rect_cells(r: Rect) -> Set<Cell> {
    Set::new(
        |c: Cell| r.i <= c.0 < r.i + r.width && r.j <= c.1 < r.j + r.height,
    )
}

/// The cells that a sequence of rectangles covers.
pub open spec fn covered(rects: Seq<Rect>) -> Set<Cell>
    decreases rects.len(),
{
    if rects.len() == 0 {
        Set::empty()
    } else {
        covered(rects.drop_last()) + rect_cells(rects.last())
    }
}

/// Every corner of the cell is above the threshold.
pub open spec fn full(mask: Seq<bool>, w: int, h: int, x: int, y: int) -> bool {
    iso_code(mask, w, h, x, y) == 15
}

/// The number of cells from column `x` rightwards along row `y` that are
/// full and not yet used, up to the first that is not.
pub open spec fn run_len(mask: Seq<bool>, w: int, h: int, used: Set<Cell>, x: int, y: int) -> int
    decreases w - x,
{
    if x < w - 2 && full(mask, w, h, x, y) && !used.contains((x, y)) {
        1 + run_len(mask, w, h, used, x + 1, y)
    } else {
        0
    }
}

/// Every cell of row `y` in columns `x0 .. x0 + width` is full and unused.
pub open spec fn row_free(
    mask: Seq<bool>,
    w: int,
    h: int,
    used: Set<Cell>,
    x0: int,
    width: int,
    y: int,
) -> bool {
    forall|x: int| x0 <= x < x0 + width ==> full(mask, w, h, x, y) && !used.contains((x, y))
}

/// The number of rows from `y` downwards, each above row `h - 2`, that are
/// free over columns `x0 .. x0 + width`, up to the first that is not.
pub open spec fn rows_free(
    mask: Seq<bool>,
    w: int,
    h: int,
    used: Set<Cell>,
    x0: int,
    width: int,
    y: int,
) -> int
    decreases h - y,
{
    if y < h - 2 && row_free(mask, w, h, used, x0, width, y) {
        1 + rows_free(mask, w, h, used, x0, width, y + 1)
    } else {
        0
    }
}

/// The rectangle that a merge started at the full, unused cell (i, j) takes:
/// as wide as the run of free cells to its right allows, then as many rows
/// down as are free over that whole width.
pub open spec fn greedy_rect(mask: Seq<bool>, w: int, h: int, used: Set<Cell>, i: int, j: int) -> Rect {
    let width: int = 1 + run_len(mask, w, h, used, i + 1, j);
    let height: int = 1 + rows_free(mask, w, h, used, i, width, j + 1);
    Rect { i: i as u32, j: j as u32, width: width as u32, height: height as u32 }
}

/// The two triangles that span a merged rectangle, from its corner points.
pub open spec fn rect_tris(r: Rect, w: int) -> Seq<Triangle> {
    let p1 = point_index(w, r.i as int, r.j as int) as u32;
    let p2 = point_index(w, r.i + r.width, r.j as int) as u32;
    let p3 = point_index(w, r.i + r.width, r.j + r.height) as u32;
    let p4 = point_index(w, r.i as int, r.j + r.height) as u32;
    seq![tri(pt(p1), pt(p4), pt(p3)), tri(pt(p2), pt(p1), pt(p3))]
}

/// What visiting cell (i, j) adds (triangles, rectangles) and the used cells
/// afterwards.
pub open spec fn visit(mask: Seq<bool>, w: int, h: int, used: Set<Cell>, i: int, j: int) -> (
    Seq<Triangle>,
    Seq<Rect>,
    Set<Cell>,
) {
    let code = iso_code(mask, w, h, i, j);
    if used.contains((i, j)) {
        (Seq::empty(), Seq::empty(), used)
    } else if code == 15 {
        let r = greedy_rect(mask, w, h, used, i, j);
        (rect_tris(r, w), seq![r], used + rect_cells(r))
    } else {
        let a = point_index(w, i, j) as u32;
        let b = point_index(w, i + 1, j) as u32;
        let c = point_index(w, i + 1, j + 1) as u32;
        let d = point_index(w, i, j + 1) as u32;
        (case_tris(code, a, b, c, d), Seq::empty(), used)
    }
}

/// The triangles and rectangles that visiting the cells from (i, j) on, in
/// row order, emits, with `used` the cells merged so far.
pub open spec fn scan(mask: Seq<bool>, w: int, h: int, used: Set<Cell>, i: int, j: int) -> (
    Seq<Triangle>,
    Seq<Rect>,
)
    decreases h - j, w - i,
{
    if j >= h - 1 || w < 2 {
        (Seq::empty(), Seq::empty())
    } else if i >= w - 1 {
        scan(mask, w, h, used, 0, j + 1)
    } else {
        let v = visit(mask, w, h, used, i, j);
        let rest = scan(mask, w, h, v.2, i + 1, j);
        (v.0 + rest.0, v.1 + rest.1)
    }
}

/// The triangles and rectangles of a whole build of `mask` on a
/// `w` x `h` grid.
pub open spec fn triangulation_of(mask: Seq<bool>, w: int, h: int) -> (Seq<Triangle>, Seq<Rect>) {
    scan(mask, w, h, Set::empty(), 0, 0)
}

/// The consumed-flag vector agrees with the set of used cells.
pub open spec fn flags_match(flags: Seq<bool>, used: Set<Cell>, w: int, h: int) -> bool {
    &&& flags.len() == w * h
    &&& forall|x: int, y: int|
        0 <= x < w && 0 <= y < h ==> #[trigger] used.contains((x, y)) == flags[point_index(w, x, y)]
}

proof fn lemma_index_injective(w: int, h: int, x1: int, y1: int, x2: int, y2: int)
    requires
        0 <= x1 < w,
        0 <= x2 < w,
        0 <= y1 < h,
        0 <= y2 < h,
        point_index(w, x1, y1) == point_index(w, x2, y2),
    ensures
        x1 == x2,
        y1 == y2,
{
    if y1 < y2 {
        assert(y1 * w + w <= y2 * w) by (nonlinear_arith)
            requires
                y1 < y2,
                w >= 0,
        ;
    } else if y2 < y1 {
        assert(y2 * w + w <= y1 * w) by (nonlinear_arith)
            requires
                y2 < y1,
                w >= 0,
        ;
    }
}

proof fn lemma_index_bound(w: int, h: int, x: int, y: int)
    requires
        0 <= x < w,
        0 <= y < h,
    ensures
        0 <= point_index(w, x, y) < w * h,
        point_index(w, x, y + 1) == point_index(w, x, y) + w,
        y * w + w <= w * h,
{
    assert(y * w + w <= h * w) by (nonlinear_arith)
        requires
            y < h,
            w >= 0,
    ;
    assert(0 <= y * w) by (nonlinear_arith)
        requires
            y >= 0,
            w >= 0,
    ;
    assert((y + 1) * w == y * w + w) by (nonlinear_arith);
    assert(h * w == w * h) by (nonlinear_arith);
}

/// The cells of rows `j .. j + rows` and of the first `extra` columns of row
/// `j + rows`, over columns `i .. i + width`.
spec fn block(i: int, j: int, width: int, rows: int, extra: int) -> Set<Cell> {
    Set::new(
        |c: Cell|
            (i <= c.0 < i + width && j <= c.1 < j + rows) || (c.1 == j + rows && i <= c.0 < i
                + extra),
    )
}

/// Whether every cell of row `y` over columns `x0 .. x0 + width` is full and
/// not yet consumed.
fn row_is_free(
    grid: &Grid,
    layer: &ThresholdLayer,
    quads: &Vec<bool>,
    used: Ghost<Set<Cell>>,
    x0: u32,
    width: u32,
    y: u32,
) -> (r: bool)
    requires
        layer.fits(grid),
        flags_match(quads@, used@, grid.width as int, grid.height as int),
        x0 + width <= grid.width - 2,
        y <= grid.height - 2,
    ensures
        r == row_free(
            layer.normalized_values@,
            grid.width as int,
            grid.height as int,
            used@,
            x0 as int,
            width as int,
            y as int,
        ),
{
    let w = grid.width;
    let ghost mask = layer.normalized_values@;
    let ghost wi = grid.width as int;
    let ghost hi = grid.height as int;
    proof {
        lemma_index_bound(wi, hi, 0, y as int);
    }
    let mut x: u32 = x0;
    while x < x0 + width
        invariant
            layer.fits(grid),
            w == grid.width,
            mask == layer.normalized_values@,
            wi == w,
            hi == grid.height,
            flags_match(quads@, used@, wi, hi),
            x0 + width <= w - 2,
            y <= hi - 2,
            y * wi + wi <= wi * hi,
            x0 <= x <= x0 + width,
            forall|x1: int|
                x0 <= x1 < x ==> full(mask, wi, hi, x1, y as int) && !used@.contains((x1, y as int)),
        decreases x0 + width - x,
    {
        let code = layer.calculate_iso(grid, x, y);
        if code != 15 || quads[(x + y * w) as usize] {
            proof {
                assert(!(full(mask, wi, hi, x as int, y as int) && !used@.contains(
                    (x as int, y as int),
                )));
                if row_free(mask, wi, hi, used@, x0 as int, width as int, y as int) {
                    assert(full(mask, wi, hi, x as int, y as int) && !used@.contains(
                        (x as int, y as int),
                    ));
                }
            }
            return false;
        }
        x = x + 1;
    }
    true
}

/// Merges the full, unconsumed cell (i, j) with its neighbours into the
/// greedy rectangle, marks the rectangle's cells consumed, and returns it.
fn square(
    grid: &Grid,
    layer: &ThresholdLayer,
    quads: &mut Vec<bool>,
    used: Ghost<Set<Cell>>,
    i: u32,
    j: u32,
) -> (r: Rect)
    requires
        layer.fits(grid),
        flags_match(old(quads)@, used@, grid.width as int, grid.height as int),
        full(layer.normalized_values@, grid.width as int, grid.height as int, i as int, j as int),
        !used@.contains((i as int, j as int)),
    ensures
        r == greedy_rect(
            layer.normalized_values@,
            grid.width as int,
            grid.height as int,
            used@,
            i as int,
            j as int,
        ),
        flags_match(final(quads)@, used@ + rect_cells(r), grid.width as int, grid.height as int),
        forall|c: Cell|
            #[trigger] rect_cells(r).contains(c) ==> full(
                layer.normalized_values@,
                grid.width as int,
                grid.height as int,
                c.0,
                c.1,
            ) && !used@.contains(c),
        rect_cells(r).contains((i as int, j as int)),
        r.i == i,
        r.j == j,
        r.width >= 1,
        r.height >= 1,
        r.i + r.width <= grid.width - 2,
        r.j + r.height <= grid.height - 1,
{
    let w = grid.width;
    let h = grid.height;
    let ghost mask = layer.normalized_values@;
    let ghost wi = w as int;
    let ghost hi = h as int;
    proof {
        lemma_index_bound(wi, hi, 0, j as int);
    }
    let mut width: u32 = 1;
    let mut new_i: u32 = i + 1;
    while new_i < w - 2 && layer.calculate_iso(grid, new_i, j) == 15 && !quads[(new_i + j * w) as usize]
        invariant
            layer.fits(grid),
            w == grid.width,
            h == grid.height,
            mask == layer.normalized_values@,
            wi == w,
            hi == h,
            flags_match(quads@, used@, wi, hi),
            i < w - 2,
            j <= h - 2,
            j * wi + wi <= wi * hi,
            new_i == i + width,
            width >= 1,
            new_i <= w - 2,
            run_len(mask, wi, hi, used@, i + 1, j as int) == (width - 1) + run_len(
                mask,
                wi,
                hi,
                used@,
                new_i as int,
                j as int,
            ),
            forall|x: int|
                i <= x < new_i ==> full(mask, wi, hi, x, j as int) && !used@.contains((x, j as int)),
        decreases w - new_i,
    {
        width = width + 1;
        new_i = new_i + 1;
    }
    proof {
        if new_i < w - 2 && full(mask, wi, hi, new_i as int, j as int) {
            assert(used@.contains((new_i as int, j as int)));
        }
        assert(run_len(mask, wi, hi, used@, new_i as int, j as int) == 0);
    }
    let mut height: u32 = 1;
    let mut new_j: u32 = j + 1;
    assert forall|x: int, y: int|
        i <= x < i + width && j <= y < new_j implies full(mask, wi, hi, x, y) && !used@.contains(
        (x, y),
    ) by {
        assert(y == j);
        assert(i <= x < new_i);
    }
    while new_j < h - 2 && row_is_free(grid, layer, quads, used, i, width, new_j)
        invariant
            layer.fits(grid),
            w == grid.width,
            h == grid.height,
            mask == layer.normalized_values@,
            wi == w,
            hi == h,
            flags_match(quads@, used@, wi, hi),
            i + width <= w - 2,
            j <= h - 2,
            width >= 1,
            width == 1 + run_len(mask, wi, hi, used@, i + 1, j as int),
            new_j == j + height,
            height >= 1,
            new_j <= h - 1,
            rows_free(mask, wi, hi, used@, i as int, width as int, j + 1) == (height - 1)
                + rows_free(mask, wi, hi, used@, i as int, width as int, new_j as int),
            forall|x: int, y: int|
                i <= x < i + width && j <= y < new_j ==> full(mask, wi, hi, x, y) && !used@.contains(
                    (x, y),
                ),
        decreases h - new_j,
    {
        assert forall|x: int, y: int|
            i <= x < i + width && j <= y < new_j + 1 implies full(mask, wi, hi, x, y)
            && !used@.contains((x, y)) by {
            if y == new_j {
                assert(row_free(mask, wi, hi, used@, i as int, width as int, y));
            }
        }
        height = height + 1;
        new_j = new_j + 1;
    }
    let r = Rect { i, j, width, height };
    assert(r == greedy_rect(mask, wi, hi, used@, i as int, j as int));
    let ghost base = used@;
    let mut hh: u32 = 0;
    while hh < height
        invariant
            grid.wf(),
            w == grid.width,
            h == grid.height,
            wi == w,
            hi == h,
            base == used@,
            i + width <= w - 2,
            j + height <= h - 1,
            hh <= height,
            flags_match(quads@, base + block(i as int, j as int, width as int, hh as int, 0), wi, hi),
        decreases height - hh,
    {
        let mut ww: u32 = 0;
        while ww < width
            invariant
                grid.wf(),
                w == grid.width,
                h == grid.height,
                wi == w,
                hi == h,
                i + width <= w - 2,
                j + height <= h - 1,
                hh < height,
                ww <= width,
                flags_match(
                    quads@,
                    base + block(i as int, j as int, width as int, hh as int, ww as int),
                    wi,
                    hi,
                ),
            decreases width - ww,
        {
            let x: u32 = i + ww;
            let y: u32 = j + hh;
            proof {
                lemma_index_bound(wi, hi, x as int, y as int);
            }
            let ghost before = quads@;
            quads[(x + y * w) as usize] = true;
            let ghost s0 = base + block(i as int, j as int, width as int, hh as int, ww as int);
            let ghost s1 = base + block(i as int, j as int, width as int, hh as int, ww + 1);
            proof {
                assert forall|x1: int, y1: int| 0 <= x1 < wi && 0 <= y1 < hi implies #[trigger] s1.contains(
                    (x1, y1),
                ) == quads@[point_index(wi, x1, y1)] by {
                    lemma_index_bound(wi, hi, x1, y1);
                    if point_index(wi, x1, y1) == point_index(wi, x as int, y as int) {
                        lemma_index_injective(wi, hi, x1, y1, x as int, y as int);
                    } else {
                        assert(s0.contains((x1, y1)) == before[point_index(wi, x1, y1)]);
                    }
                }
            }
            ww = ww + 1;
        }
        assert(block(i as int, j as int, width as int, hh as int, width as int) =~= block(
            i as int,
            j as int,
            width as int,
            hh + 1,
            0,
        ));
        hh = hh + 1;
    }
    assert(block(i as int, j as int, width as int, height as int, 0) =~= rect_cells(r));
    r
}

/// Emits the two triangles of a merged rectangle.
fn emit_rect(tris: &mut Vec<Triangle>, r: Rect, w: u32, h: u32)
    requires
        valid_dims(w as int, h as int),
        r.i + r.width <= w - 2,
        r.j + r.height <= h - 1,
    ensures
        final(tris)@ == old(tris)@ + rect_tris(r, w as int),
        all_below(rect_tris(r, w as int), w * h),
{
    proof {
        lemma_index_bound(w as int, h as int, (r.i + r.width) as int, (r.j + r.height) as int);
        lemma_index_bound(w as int, h as int, r.i as int, (r.j + r.height) as int);
        lemma_index_bound(w as int, h as int, r.i as int, r.j as int);
        lemma_index_bound(w as int, h as int, (r.i + r.width) as int, r.j as int);
    }
    let p1 = r.i + r.j * w;
    let p2 = r.i + r.width + r.j * w;
    let p3 = r.i + r.width + (r.j + r.height) * w;
    let p4 = r.i + (r.j + r.height) * w;
    tris.push(Triangle { a: MeshPoint::Point(p1), b: MeshPoint::Point(p4), c: MeshPoint::Point(p3) });
    tris.push(Triangle { a: MeshPoint::Point(p2), b: MeshPoint::Point(p1), c: MeshPoint::Point(p3) });
    proof {
        assert(final(tris)@ =~= old(tris)@ + rect_tris(r, w as int));
    }
}

/// Builds the symbolic mesh of `layer` over `grid`: every cell visited in
/// row order; a cell already consumed by a merge is skipped, a fully-inside
/// one starts a greedy merge, any other is triangulated by its code.
///
/// The merged rectangles cover exactly the fully-inside cells, without
/// overlapping.
pub fn triangulate(grid: &Grid, layer: &ThresholdLayer) -> (r: Triangulation)
    requires
        layer.fits(grid),
    ensures
        (r.triangles@, r.rects@) == triangulation_of(
            layer.normalized_values@,
            grid.width as int,
            grid.height as int,
        ),
        all_below(r.triangles@, grid.width * grid.height),
        forall|x: int, y: int|
            0 <= x < grid.width - 1 && 0 <= y < grid.height - 1 ==> (full(
                layer.normalized_values@,
                grid.width as int,
                grid.height as int,
                x,
                y,
            ) <==> #[trigger] covered(r.rects@).contains((x, y))),
        forall|k1: int, k2: int|
            0 <= k1 < k2 < r.rects@.len() ==> rect_cells(#[trigger] r.rects@[k1]).disjoint(
                rect_cells(#[trigger] r.rects@[k2]),
            ),
{
    let w = grid.width;
    let h = grid.height;
    let ghost mask = layer.normalized_values@;
    let ghost wi = w as int;
    let ghost hi = h as int;
    let ghost whole = triangulation_of(mask, wi, hi);
    let total: u32 = w * h;
    let mut quads: Vec<bool> = Vec::with_capacity(total as usize);
    let mut k: u32 = 0;
    while k < total
        invariant
            k <= total,
            quads@ == Seq::new(k as nat, |n: int| false),
        decreases total - k,
    {
        quads.push(false);
        k = k + 1;
        proof {
            assert(quads@ =~= Seq::new(k as nat, |n: int| false));
        }
    }
    let ghost mut used: Set<Cell> = Set::empty();
    proof {
        assert forall|x: int, y: int| 0 <= x < wi && 0 <= y < hi implies #[trigger] used.contains((x, y))
            == quads@[point_index(wi, x, y)] by {
            lemma_index_bound(wi, hi, x, y);
        }
    }
    let mut triangles: Vec<Triangle> = Vec::new();
    let mut rects: Vec<Rect> = Vec::new();
    proof {
        assert(triangles@ + scan(mask, wi, hi, used, 0, 0).0 =~= whole.0);
        assert(rects@ + scan(mask, wi, hi, used, 0, 0).1 =~= whole.1);
    }
    let mut j: u32 = 0;
    while j < h - 1
        invariant
            layer.fits(grid),
            w == grid.width,
            h == grid.height,
            mask == layer.normalized_values@,
            wi == w,
            hi == h,
            whole == triangulation_of(mask, wi, hi),
            j <= h - 1,
            flags_match(quads@, used, wi, hi),
            triangles@ + scan(mask, wi, hi, used, 0, j as int).0 == whole.0,
            rects@ + scan(mask, wi, hi, used, 0, j as int).1 == whole.1,
            all_below(triangles@, wi * hi),
            used == covered(rects@),
            forall|k1: int| 0 <= k1 < rects@.len() ==> rect_cells(#[trigger] rects@[k1]).subset_of(used),
            forall|k1: int, k2: int|
                0 <= k1 < k2 < rects@.len() ==> rect_cells(#[trigger] rects@[k1]).disjoint(
                    rect_cells(#[trigger] rects@[k2]),
                ),
            forall|c: Cell| #[trigger] used.contains(c) ==> full(mask, wi, hi, c.0, c.1),
            forall|x: int, y: int|
                0 <= x < wi - 1 && 0 <= y < j && full(mask, wi, hi, x, y) ==> #[trigger] used.contains(
                    (x, y),
                ),
        decreases h - j,
    {
        let mut i: u32 = 0;
        while i < w - 1
            invariant
                layer.fits(grid),
                w == grid.width,
                h == grid.height,
                mask == layer.normalized_values@,
                wi == w,
                hi == h,
                whole == triangulation_of(mask, wi, hi),
                j < h - 1,
                i <= w - 1,
                flags_match(quads@, used, wi, hi),
                triangles@ + scan(mask, wi, hi, used, i as int, j as int).0 == whole.0,
                rects@ + scan(mask, wi, hi, used, i as int, j as int).1 == whole.1,
                all_below(triangles@, wi * hi),
                used == covered(rects@),
                forall|k1: int|
                    0 <= k1 < rects@.len() ==> rect_cells(#[trigger] rects@[k1]).subset_of(used),
                forall|k1: int, k2: int|
                    0 <= k1 < k2 < rects@.len() ==> rect_cells(#[trigger] rects@[k1]).disjoint(
                        rect_cells(#[trigger] rects@[k2]),
                    ),
                forall|c: Cell| #[trigger] used.contains(c) ==> full(mask, wi, hi, c.0, c.1),
                forall|x: int, y: int|
                    0 <= x < wi - 1 && 0 <= y < hi - 1 && (y < j || (y == j && x < i)) && full(
                        mask,
                        wi,
                        hi,
                        x,
                        y,
                    ) ==> #[trigger] used.contains((x, y)),
            decreases w - i,
        {
            proof {
                lemma_index_bound(wi, hi, i as int, j as int);
                lemma_index_bound(wi, hi, i + 1, j as int);
                lemma_index_bound(wi, hi, i as int, j + 1);
                lemma_index_bound(wi, hi, i + 1, j + 1);
            }
            let ghost v = visit(mask, wi, hi, used, i as int, j as int);
            let ghost old_tris = triangles@;
            let ghost old_rects = rects@;
            let ghost old_used = used;
            let a: u32 = i + j * w;
            if !quads[a as usize] {
                let code = layer.calculate_iso(grid, i, j);
                if code == 15 {
                    let r = square(grid, layer, &mut quads, Ghost(used), i, j);
                    emit_rect(&mut triangles, r, w, h);
                    rects.push(r);
                    proof {
                        used = used + rect_cells(r);
                        assert(rects@.drop_last() =~= old_rects);
                        assert forall|k1: int, k2: int|
                            0 <= k1 < k2 < rects@.len() implies rect_cells(
                            #[trigger] rects@[k1],
                        ).disjoint(rect_cells(#[trigger] rects@[k2])) by {
                            if k2 == rects@.len() - 1 {
                                assert(rect_cells(old_rects[k1]).subset_of(old_used));
                            }
                        }
                        assert forall|k1: int|
                            0 <= k1 < rects@.len() implies rect_cells(
                            #[trigger] rects@[k1],
                        ).subset_of(used) by {
                            if k1 < old_rects.len() {
                                assert(rect_cells(old_rects[k1]).subset_of(old_used));
                            }
                        }
                        assert forall|c: Cell| #[trigger] used.contains(c) implies full(
                            mask,
                            wi,
                            hi,
                            c.0,
                            c.1,
                        ) by {
                            if !old_used.contains(c) {
                                assert(rect_cells(r).contains(c));
                            }
                        }
                    }
                } else {
                    let b: u32 = a + 1;
                    let d: u32 = a + w;
                    let c: u32 = d + 1;
                    proof {
                        lemma_case_tris_below(code as int, a, b, c, d, wi * hi);
                    }
                    cell_triangles(&mut triangles, code, a, b, c, d);
                }
            }
            proof {
                assert(triangles@ =~= old_tris + v.0);
                assert(rects@ =~= old_rects + v.1);
                assert(used == v.2);
                assert(triangles@ + scan(mask, wi, hi, used, i + 1, j as int).0 =~= whole.0);
                assert(rects@ + scan(mask, wi, hi, used, i + 1, j as int).1 =~= whole.1);
                assert forall|k1: int| 0 <= k1 < triangles@.len() implies triangle_below(
                    #[trigger] triangles@[k1],
                    wi * hi,
                ) by {
                    if k1 >= old_tris.len() {
                        assert(triangles@[k1] == v.0[k1 - old_tris.len()]);
                    }
                }
            }
            i = i + 1;
        }
        j = j + 1;
    }
    Triangulation { triangles, rects }
}

} // verus!
