//! Per-voxel signed density storage for one chunk.
//!
//! Densities are held in fixed-point units: [`DENSITY_ONE`] stands for
//! a density of one. Negative values lie inside the solid, non-negative
//! values outside. The blending engine depends only on the sign and
//! magnitude of these values, not on how they were produced; a caller
//! that works in floating point scales by [`DENSITY_ONE`] and rounds
//! before storing.

use vstd::prelude::*;

use crate::field::vox_in_bounds;
use crate::field::vox_index;
use crate::field::FIELD_SIZE;
use crate::field::FIELD_VOLUME;

verus! {

/// Fixed-point scale: the stored value that stands for density 1.
pub const DENSITY_ONE: i32 = 1024;

/// Largest stored magnitude: densities are clamped into
/// `[-DENSITY_MAX, DENSITY_MAX]` (1024 in density units), which keeps
/// every weight computation of the blending engine in range.
pub const DENSITY_MAX: i32 = 1048576;

/// A density value clamped into the field's stored range.
pub open spec fn clamp_density(v: int) -> int {
    if v < -1048576 {
        -1048576
    } else if v > 1048576 {
        1048576
    } else {
        v
    }
}

/// A 3D grid of signed fixed-point densities for voxel terrain.
///
/// Same shape and linear layout as the material grid, so that voxel
/// `(x, y, z)` addresses the same location in both.
#[derive(Clone, Debug)]
pub struct DensityField {
    data: Vec<i32>,
}

impl View for DensityField {
    type V = Seq<i32>;

    closed spec fn view(&self) -> Seq<i32> {
        self.data@
    }
}

impl DensityField {
    /// True when the grid owns one value per voxel, each within the
    /// stored range.
    pub open spec fn wf(self) -> bool {
        self@.len() == 32768 && forall|j: int|
            0 <= j < 32768 ==> -1048576 <= #[trigger] self@[j] <= 1048576
    }

    /// The density stored at in-bounds voxel `(x, y, z)`.
    pub open spec fn at(self, x: int, y: int, z: int) -> i32 {
        self@[vox_index(x, y, z)]
    }

    /// Creates a density field with every voxel set to the given value,
    /// clamped into the stored range.
    pub fn filled(density: i32) -> (r: Self)
        ensures
            r.wf(),
            forall|i: int| 0 <= i < 32768 ==> r@[i] == clamp_density(density as int),
    {
        let d: i32 = if density < -DENSITY_MAX {
            -DENSITY_MAX
        } else if density > DENSITY_MAX {
            DENSITY_MAX
        } else {
            density
        };
        let mut data: Vec<i32> = Vec::new();
        let mut i: usize = 0;
        while i < FIELD_VOLUME
            invariant
                data@.len() == i,
                i <= 32768,
                forall|j: int| 0 <= j < i ==> data@[j] == clamp_density(density as int),
                d == clamp_density(density as int),
            decreases 32768 - i,
        {
            data.push(d);
            i = i + 1;
        }
        Self { data }
    }

    /// Creates a new density field with every voxel fully exterior
    /// (density one).
    pub fn new() -> (r: Self)
        ensures
            r.wf(),
            forall|i: int| 0 <= i < 32768 ==> r@[i] == 1024,
    {
        Self::filled(DENSITY_ONE)
    }

    /// Sets the density at the given coordinates, clamped into the
    /// stored range. Silently ignores out-of-bounds coordinates.
    pub fn set(&mut self, x: u32, y: u32, z: u32, density: i32)
        requires
            old(self).wf(),
        ensures
            final(self).wf(),
            forall|a: int, b: int, c: int|
                vox_in_bounds(a, b, c) ==> final(self).at(a, b, c) == if a == x && b == y && c
                    == z {
                    clamp_density(density as int)
                } else {
                    old(self).at(a, b, c) as int
                },
    {
        let d: i32 = if density < -DENSITY_MAX {
            -DENSITY_MAX
        } else if density > DENSITY_MAX {
            DENSITY_MAX
        } else {
            density
        };
        if x < FIELD_SIZE && y < FIELD_SIZE && z < FIELD_SIZE {
            let i = crate::field::MaterialField::index(x, y, z);
            self.data[i] = d;
            proof {
                assert forall|a: int, b: int, c: int| vox_in_bounds(a, b, c) implies self.at(
                    a,
                    b,
                    c,
                ) == if a == x && b == y && c == z {
                    clamp_density(density as int)
                } else {
                    old(self).at(a, b, c) as int
                } by {
                    if !(a == x && b == y && c == z) {
                        if vox_index(a, b, c) == vox_index(x as int, y as int, z as int) {
                            crate::field::lemma_vox_index_injective(
                                a,
                                b,
                                c,
                                x as int,
                                y as int,
                                z as int,
                            );
                        }
                    }
                }
            }
        }
    }

    /// Gets the density at the given coordinates.
    ///
    /// Returns the exterior density [`DENSITY_ONE`] for out-of-bounds
    /// coordinates.
    pub fn get(&self, x: u32, y: u32, z: u32) -> (r: i32)
        requires
            self.wf(),
        ensures
            r == if vox_in_bounds(x as int, y as int, z as int) {
                self.at(x as int, y as int, z as int)
            } else {
                1024
            },
    {
        if x < FIELD_SIZE && y < FIELD_SIZE && z < FIELD_SIZE {
            let i = crate::field::MaterialField::index(x, y, z);
            self.data[i]
        } else {
            DENSITY_ONE
        }
    }

    /// Gets the density using signed coordinates.
    ///
    /// Returns `None` for out-of-bounds coordinates.
    pub fn get_signed(&self, x: i32, y: i32, z: i32) -> (r: Option<i32>)
        requires
            self.wf(),
        ensures
            r == if vox_in_bounds(x as int, y as int, z as int) {
                Some(self.at(x as int, y as int, z as int))
            } else {
                None::<i32>
            },
    {
        if crate::field::MaterialField::in_bounds(x, y, z) {
            let i = crate::field::MaterialField::index(x as u32, y as u32, z as u32);
            Some(self.data[i])
        } else {
            None
        }
    }
}

} // verus!
