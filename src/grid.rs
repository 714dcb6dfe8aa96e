//! The regular sample grid of the scalar field.

use vstd::prelude::*;

verus! {

/// Why a grid cannot be built with the dimensions asked for.
#[derive(Debug, Clone, Copy, PartialEq, Eq, Structural)]
pub enum GridError {
    /// The width or the height is below 2.
    TooSmall,
    /// The width or the height is odd, so the index window cannot be centred.
    Odd,
    /// `width * height` does not fit a `u32`.
    TooLarge,
}

/// A `width` x `height` grid of samples. Sample `k` stands at column
/// `k % width` and row `k / width`; row 0 is the top one.
///
/// `spacing` and the samples in `values` are bit patterns of `f32` values.
pub struct Grid {
    pub width: u32,
    pub height: u32,
    pub spacing: u32,
    pub values: Vec<u32>,
}

/// Dimensions that a grid accepts.
pub open spec fn valid_dims(width: int, height: int) -> bool {
    &&& width >= 2
    &&& height >= 2
    &&& width % 2 == 0
    &&& height % 2 == 0
    &&& width * height <= u32::MAX
}

/// Index of the grid point at column `x`, row `y`.
pub open spec fn point_index(width: int, x: int, y: int) -> int {
    x + y * width
}

/// The error that `Grid::new` gives for the dimensions, if any.
pub open spec fn dims_error(width: int, height: int) -> Option<GridError> {
    if width < 2 || height < 2 {
        Some(GridError::TooSmall)
    } else if width % 2 != 0 || height % 2 != 0 {
        Some(GridError::Odd)
    } else if width * height > u32::MAX {
        Some(GridError::TooLarge)
    } else {
        None
    }
}

/// Column `x` of a grid `width` wide lies at `x - width / 2` on the lattice
/// (then shifted by half a step and scaled by the spacing).
pub open spec fn lattice_x(width: int, x: int) -> int {
    x - width / 2
}

/// Row `y` of a grid `height` high lies at `height / 2 - 1 - y` on the
/// lattice: rows run from the top down.
pub open spec fn lattice_y(height: int, y: int) -> int {
    height / 2 - 1 - y
}

impl Grid {
    pub open spec fn wf(&self) -> bool {
        &&& valid_dims(self.width as int, self.height as int)
        &&& self.values@.len() == self.width * self.height
    }

    /// A grid of the given dimensions and spacing, every sample `+0.0`.
    pub fn new(width: u32, height: u32, spacing: u32) -> (r: Result<Grid, GridError>)
        ensures
            match r {
                Ok(g) => {
                    &&& dims_error(width as int, height as int).is_none()
                    &&& g.wf()
                    &&& g.width == width
                    &&& g.height == height
                    &&& g.spacing == spacing
                    &&& g.values@ == Seq::new((width * height) as nat, |k: int| 0u32)
                },
                Err(e) => dims_error(width as int, height as int) == Some(e),
            },
    {
        if width < 2 || height < 2 {
            return Err(GridError::TooSmall);
        }
        if width % 2 != 0 || height % 2 != 0 {
            return Err(GridError::Odd);
        }
        if width > u32::MAX / height {
            proof {
                assert(width * height > u32::MAX) by (nonlinear_arith)
                    requires
                        width > u32::MAX / height,
                        height >= 2,
                ;
            }
            return Err(GridError::TooLarge);
        }
        proof {
            assert(width * height <= u32::MAX) by (nonlinear_arith)
                requires
                    width <= u32::MAX / height,
                    height >= 2,
            ;
        }
        let total: u32 = width * height;
        let mut values: Vec<u32> = Vec::with_capacity(total as usize);
        let mut k: u32 = 0;
        while k < total
            invariant
                k <= total,
                values@ == Seq::new(k as nat, |n: int| 0u32),
            decreases total - k,
        {
            values.push(0);
            k = k + 1;
            proof {
                assert(values@ =~= Seq::new(k as nat, |n: int| 0u32));
            }
        }
        Ok(Grid { width, height, spacing, values })
    }

    /// Replaces every sample by the one at the same index in `values`.
    pub fn update(&mut self, values: Vec<u32>)
        requires
            values@.len() == old(self).values@.len(),
        ensures
            final(self).values@ == values@,
            final(self).width == old(self).width,
            final(self).height == old(self).height,
            final(self).spacing == old(self).spacing,
    {
        self.values = values;
    }

    /// Lattice coordinates `(x, y)` of grid point `k`: the point stands at
    /// `((x + 0.5) * spacing, (y + 0.5) * spacing, 0)`.
    pub fn lattice_point(&self, k: u32) -> (r: (i32, i32))
        requires
            self.wf(),
            k < self.width * self.height,
        ensures
            r.0 as int == lattice_x(self.width as int, k as int % self.width as int),
            r.1 as int == lattice_y(self.height as int, k as int / self.width as int),
    {
        let x: u32 = k % self.width;
        let y: u32 = k / self.width;
        proof {
            assert(y < self.height) by (nonlinear_arith)
                requires
                    y == k / self.width,
                    k < self.width * self.height,
                    self.width > 0,
            ;
        }
        let hx: i64 = (self.width / 2) as i64;
        let hy: i64 = (self.height / 2) as i64;
        let lx: i64 = x as i64 - hx;
        let ly: i64 = hy - 1 - y as i64;
        (lx as i32, ly as i32)
    }
}

} // verus!
