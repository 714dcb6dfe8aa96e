//! Classification of the samples against one threshold, and the
//! marching-squares topology code of each cell.

use vstd::prelude::*;

use crate::float_bits::{f32_bits_gt, f32_gt};
use crate::grid::{point_index, Grid};
use crate::triangulation::{triangulate, triangulation_of, Triangulation};

verus! {

/// One iso-level: its threshold (an `f32` bit pattern) and, per grid point,
/// whether the sample lies strictly above it.
pub struct ThresholdLayer {
    pub threshold: u32,
    pub normalized_values: Vec<bool>,
}

/// The classification of `values` against `threshold`.
pub open spec fn classify(values: Seq<u32>, threshold: u32) -> Seq<bool> {
    Seq::new(values.len(), |k: int| f32_gt(values[k], threshold))
}

/// 1 for a corner above the threshold, 0 for one below.
pub open spec fn bit(b: bool) -> int {
    if b {
        1
    } else {
        0
    }
}

/// The 4-bit topology code of the cell at column `i`, row `j`: corners
/// a = (i, j), b = (i + 1, j), c = (i + 1, j + 1), d = (i, j + 1) packed as
/// `a << 3 | b << 2 | c << 1 | d`. Cells with `i >= width - 2` or
/// `j > height - 2` have code 0.
pub open spec fn iso_code(mask: Seq<bool>, width: int, height: int, i: int, j: int) -> int {
    if i >= width - 2 || j > height - 2 {
        0
    } else {
        8 * bit(mask[point_index(width, i, j)])
            + 4 * bit(mask[point_index(width, i + 1, j)])
            + 2 * bit(mask[point_index(width, i + 1, j + 1)])
            + bit(mask[point_index(width, i, j + 1)])
    }
}

impl ThresholdLayer {
    /// The layer of a `width` x `height` grid is consistent with `grid`.
    pub open spec fn fits(&self, grid: &Grid) -> bool {
        &&& grid.wf()
        &&& self.normalized_values@.len() == grid.values@.len()
    }

    /// The topology code of a cell of `grid` under this layer.
    pub open spec fn code(&self, grid: &Grid, i: int, j: int) -> int {
        iso_code(self.normalized_values@, grid.width as int, grid.height as int, i, j)
    }

    /// A layer for a `width` x `height` grid, every point below `threshold`.
    pub fn new(width: u32, height: u32, threshold: u32) -> (r: ThresholdLayer)
        requires
            width * height <= usize::MAX,
        ensures
            r.threshold == threshold,
            r.normalized_values@ == Seq::new((width * height) as nat, |k: int| false),
    {
        let total: usize = width as usize * height as usize;
        let mut normalized_values: Vec<bool> = Vec::with_capacity(total);
        let mut k: usize = 0;
        while k < total
            invariant
                k <= total,
                normalized_values@ == Seq::new(k as nat, |n: int| false),
            decreases total - k,
        {
            normalized_values.push(false);
            k = k + 1;
            proof {
                assert(normalized_values@ =~= Seq::new(k as nat, |n: int| false));
            }
        }
        ThresholdLayer { threshold, normalized_values }
    }

    /// Classifies every sample of `grid`: strictly above the threshold or not.
    pub fn update_values(&mut self, grid: &Grid)
        ensures
            final(self).threshold == old(self).threshold,
            final(self).normalized_values@ == classify(grid.values@, old(self).threshold),
    {
        let n: usize = grid.values.len();
        let mut out: Vec<bool> = Vec::with_capacity(n);
        let mut k: usize = 0;
        while k < n
            invariant
                k <= n,
                n == grid.values@.len(),
                out@ == classify(grid.values@.take(k as int), self.threshold),
            decreases n - k,
        {
            let above = f32_bits_gt(grid.values[k], self.threshold);
            out.push(above);
            k = k + 1;
            proof {
                assert(out@ =~= classify(grid.values@.take(k as int), self.threshold));
            }
        }
        proof {
            assert(grid.values@.take(n as int) =~= grid.values@);
        }
        self.normalized_values = out;
    }

    /// The topology code of the cell at column `i`, row `j` of `grid`.
    pub fn calculate_iso(&self, grid: &Grid, i: u32, j: u32) -> (r: u8)
        requires
            self.fits(grid),
        ensures
            r as int == self.code(grid, i as int, j as int),
    {
        if i >= grid.width - 2 || j > grid.height - 2 {
            return 0;
        }
        let w = grid.width;
        proof {
            assert((j + 1) * w + i + 1 < w * grid.height) by (nonlinear_arith)
                requires
                    i < w - 2,
                    j <= grid.height - 2,
                    w >= 2,
            ;
            assert((j + 1) * w == j * w + w) by (nonlinear_arith);
        }
        let a = (i + j * w) as usize;
        let b = (i + j * w + 1) as usize;
        let c = (i + (j + 1) * w + 1) as usize;
        let d = (i + (j + 1) * w) as usize;
        let mut iso_value: u8 = 0;
        if self.normalized_values[a] {
            iso_value = iso_value + 8;
        }
        if self.normalized_values[b] {
            iso_value = iso_value + 4;
        }
        if self.normalized_values[c] {
            iso_value = iso_value + 2;
        }
        if self.normalized_values[d] {
            iso_value = iso_value + 1;
        }
        iso_value
    }

    /// Reclassifies the samples of `grid` and builds the layer's symbolic
    /// mesh from scratch.
    pub fn update_mesh(&mut self, grid: &Grid) -> (r: Triangulation)
        requires
            grid.wf(),
        ensures
            final(self).threshold == old(self).threshold,
            final(self).normalized_values@ == classify(grid.values@, old(self).threshold),
            (r.triangles@, r.rects@) == triangulation_of(
                classify(grid.values@, old(self).threshold),
                grid.width as int,
                grid.height as int,
            ),
    {
        self.update_values(grid);
        triangulate(grid, self)
    }
}

} // verus!
