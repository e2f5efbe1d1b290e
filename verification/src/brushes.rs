//! Material painting brushes: bulk mutators over a material field.
//!
//! Every brush iterates the grid deterministically and is a plain
//! synchronous mutation; brush centers and radii are given in the
//! grid's fixed-point coordinate space (1024 units per voxel), so a
//! caller working in floating point scales and rounds once at the
//! boundary.

use vstd::prelude::*;

use crate::density::DensityField;
use crate::field::MaterialField;
use crate::field::layer_lookup_or_last;
use crate::field::layer_material_or_last;
use crate::field::lemma_vox_index_cell;
use crate::field::row_of;
use crate::field::vox_in_bounds;
use crate::field::vox_index;
use crate::field::FIELD_VOLUME;

verus! {

/// Largest brush coordinate or radius magnitude the brushes accept, in
/// fixed-point units; far beyond the grid, and small enough that every
/// squared distance stays in range.
pub const BRUSH_COORD_LIMIT: i64 = 0x10000000000;

/// A value bounded in magnitude has a bounded square.
proof fn lemma_square_le(v: int, b: int)
    requires
        -b <= v <= b,
        b >= 0,
    ensures
        0 <= v * v <= b * b,
{
    assert(0 <= v * v <= b * b) by (nonlinear_arith)
        requires
            -b <= v <= b,
            b >= 0,
    ;
}

/// True when the center of voxel `(x, y, z)` — half a voxel past its
/// integer corner — lies within `rad` of the fixed-point center
/// `(cx, cy, cz)`, by squared euclidean distance.
pub open spec fn voxel_center_in_sphere(
    x: int,
    y: int,
    z: int,
    cx: int,
    cy: int,
    cz: int,
    rad: int,
) -> bool {
    let dx = 1024 * x + 512 - cx;
    let dy = 1024 * y + 512 - cy;
    let dz = 1024 * z + 512 - cz;
    dx * dx + dy * dy + dz * dz <= rad * rad
}

/// True when a density lies within the surface band: at most
/// `threshold` away from zero.
pub open spec fn near_surface(d: int, threshold: int) -> bool {
    -threshold <= d <= threshold
}

/// Paints a sphere of material with hard edges: every in-bounds voxel
/// whose center lies within the radius of the fixed-point center is
/// set to the material. A negative radius paints nothing.
#[verifier::loop_isolation(false)]
pub fn paint_sphere(
    field: &mut MaterialField,
    cx: i64,
    cy: i64,
    cz: i64,
    radius: i64,
    material_id: u8,
)
    requires
        old(field).wf(),
        -BRUSH_COORD_LIMIT <= cx <= BRUSH_COORD_LIMIT,
        -BRUSH_COORD_LIMIT <= cy <= BRUSH_COORD_LIMIT,
        -BRUSH_COORD_LIMIT <= cz <= BRUSH_COORD_LIMIT,
        -BRUSH_COORD_LIMIT <= radius <= BRUSH_COORD_LIMIT,
    ensures
        final(field).wf(),
        forall|x: int, y: int, z: int|
            vox_in_bounds(x, y, z) ==> #[trigger] final(field).at(x, y, z) == if radius >= 0
                && voxel_center_in_sphere(x, y, z, cx as int, cy as int, cz as int, radius as int) {
                material_id
            } else {
                old(field).at(x, y, z)
            },
{
    let ghost painted = |x: int, y: int, z: int|
        radius >= 0 && voxel_center_in_sphere(
            x,
            y,
            z,
            cx as int,
            cy as int,
            cz as int,
            radius as int,
        );
    if radius < 0 {
        return ;
    }
    let mut i: usize = 0;
    while i < FIELD_VOLUME
        invariant
            field.wf(),
            i <= 32768,
            radius >= 0,
            forall|j: int| i <= j < 32768 ==> #[trigger] field@[j] == old(field)@[j],
            forall|x: int, y: int, z: int|
                vox_in_bounds(x, y, z) && vox_index(x, y, z) < i ==> #[trigger] field.at(x, y, z)
                    == if painted(x, y, z) {
                    material_id
                } else {
                    old(field).at(x, y, z)
                },
        decreases 32768 - i,
    {
        let x = (i % 32) as u32;
        let y = ((i / 32) % 32) as u32;
        let z = (i / 1024) as u32;
        proof {
            lemma_vox_index_cell(x as int, y as int, z as int);
        }
        let dx: i128 = 1024 * (x as i128) + 512 - cx as i128;
        let dy: i128 = 1024 * (y as i128) + 512 - cy as i128;
        let dz: i128 = 1024 * (z as i128) + 512 - cz as i128;
        proof {
            lemma_square_le(dx as int, 0x20000000000);
            lemma_square_le(dy as int, 0x20000000000);
            lemma_square_le(dz as int, 0x20000000000);
            lemma_square_le(radius as int, 0x20000000000);
        }
        if dx * dx + dy * dy + dz * dz <= radius as i128 * radius as i128 {
            field.set(x, y, z, material_id);
        }
        i = i + 1;
    }
}

/// Paints material only on voxels near the isosurface: within the
/// sphere, and with a density magnitude at most `surface_threshold`.
/// Useful for painting visible surfaces without touching the interior.
#[verifier::loop_isolation(false)]
pub fn paint_surface(
    materials: &mut MaterialField,
    density: &DensityField,
    cx: i64,
    cy: i64,
    cz: i64,
    radius: i64,
    material_id: u8,
    surface_threshold: i32,
)
    requires
        old(materials).wf(),
        density.wf(),
        -BRUSH_COORD_LIMIT <= cx <= BRUSH_COORD_LIMIT,
        -BRUSH_COORD_LIMIT <= cy <= BRUSH_COORD_LIMIT,
        -BRUSH_COORD_LIMIT <= cz <= BRUSH_COORD_LIMIT,
        -BRUSH_COORD_LIMIT <= radius <= BRUSH_COORD_LIMIT,
    ensures
        final(materials).wf(),
        forall|x: int, y: int, z: int|
            vox_in_bounds(x, y, z) ==> #[trigger] final(materials).at(x, y, z) == if radius >= 0
                && voxel_center_in_sphere(x, y, z, cx as int, cy as int, cz as int, radius as int)
                && near_surface(density.at(x, y, z) as int, surface_threshold as int) {
                material_id
            } else {
                old(materials).at(x, y, z)
            },
{
    let ghost painted = |x: int, y: int, z: int|
        radius >= 0 && voxel_center_in_sphere(
            x,
            y,
            z,
            cx as int,
            cy as int,
            cz as int,
            radius as int,
        ) && near_surface(density.at(x, y, z) as int, surface_threshold as int);
    if radius < 0 || surface_threshold < 0 {
        return ;
    }
    let mut i: usize = 0;
    while i < FIELD_VOLUME
        invariant
            materials.wf(),
            i <= 32768,
            radius >= 0,
            forall|j: int| i <= j < 32768 ==> #[trigger] materials@[j] == old(materials)@[j],
            forall|x: int, y: int, z: int|
                vox_in_bounds(x, y, z) && vox_index(x, y, z) < i ==> #[trigger] materials.at(
                    x,
                    y,
                    z,
                ) == if painted(x, y, z) {
                    material_id
                } else {
                    old(materials).at(x, y, z)
                },
        decreases 32768 - i,
    {
        let x = (i % 32) as u32;
        let y = ((i / 32) % 32) as u32;
        let z = (i / 1024) as u32;
        proof {
            lemma_vox_index_cell(x as int, y as int, z as int);
        }
        let dx: i128 = 1024 * (x as i128) + 512 - cx as i128;
        let dy: i128 = 1024 * (y as i128) + 512 - cy as i128;
        let dz: i128 = 1024 * (z as i128) + 512 - cz as i128;
        proof {
            lemma_square_le(dx as int, 0x20000000000);
            lemma_square_le(dy as int, 0x20000000000);
            lemma_square_le(dz as int, 0x20000000000);
            lemma_square_le(radius as int, 0x20000000000);
        }
        if dx * dx + dy * dy + dz * dz <= radius as i128 * radius as i128 {
            let d = density.get(x, y, z);
            if -surface_threshold <= d && d <= surface_threshold {
                materials.set(x, y, z, material_id);
            }
        }
        i = i + 1;
    }
}

/// Fills materials by height layers, bottom to top: each row takes the
/// first `(max_height, id)` layer whose boundary exceeds it, and rows
/// above every boundary take the last layer.
#[verifier::loop_isolation(false)]
pub fn fill_height_layers(field: &mut MaterialField, layers: &[(u32, u8)])
    requires
        old(field).wf(),
    ensures
        final(field).wf(),
        forall|x: int, y: int, z: int|
            vox_in_bounds(x, y, z) ==> #[trigger] final(field).at(x, y, z)
                == layer_material_or_last(layers@, y),
{
    let mut i: usize = 0;
    while i < FIELD_VOLUME
        invariant
            field.wf(),
            i <= 32768,
            forall|j: int|
                0 <= j < i ==> #[trigger] field@[j] == layer_material_or_last(
                    layers@,
                    row_of(j),
                ),
        decreases 32768 - i,
    {
        let y = ((i / 32) % 32) as u32;
        let m = layer_lookup_or_last(layers, y);
        let x = (i % 32) as u32;
        let z = (i / 1024) as u32;
        proof {
            lemma_vox_index_cell(x as int, y as int, z as int);
        }
        field.set(x, y, z, m);
        i = i + 1;
    }
    assert forall|x: int, y: int, z: int| vox_in_bounds(x, y, z) implies #[trigger] field.at(
        x,
        y,
        z,
    ) == layer_material_or_last(layers@, y) by {
        lemma_vox_index_cell(x, y, z);
    }
}

/// The gradient of the density field at an interior voxel, by central
/// differences along each axis.
pub open spec fn density_gradient(den: &DensityField, x: int, y: int, z: int) -> (int, int, int) {
    (
        den.at(x + 1, y, z) - den.at(x - 1, y, z),
        den.at(x, y + 1, z) - den.at(x, y - 1, z),
        den.at(x, y, z + 1) - den.at(x, y, z - 1),
    )
}

/// True when the surface through a gradient is steeper than the
/// threshold, given in thousandths. Steepness is one minus the
/// magnitude of the normal's vertical component; comparing it against
/// `t / 1000` without square roots gives, for `t < 1000`,
/// `(1000 - t)^2 · |g|^2 > 1000^2 · gy^2`. A zero gradient counts as
/// flat, and a threshold of 1000 or more is never exceeded.
pub open spec fn is_steep(gx: int, gy: int, gz: int, t: int) -> bool {
    let len_sq = gx * gx + gy * gy + gz * gz;
    len_sq > 0 && t < 1000 && (1000 - t) * (1000 - t) * len_sq > 1000000 * (gy * gy)
}

/// True for voxels one step inside the grid boundary, where the
/// central-difference stencil has both neighbors along each axis.
pub open spec fn vox_interior(x: int, y: int, z: int) -> bool {
    1 <= x < 31 && 1 <= y < 31 && 1 <= z < 31
}

/// Fills materials by surface steepness: interior voxels where the
/// density gradient leans more than `steepness_threshold` thousandths
/// away from vertical get `steep_material`, the other interior voxels
/// get `flat_material`, and the one-voxel boundary margin is left
/// untouched (the gradient stencil needs both neighbors along each
/// axis).
#[verifier::loop_isolation(false)]
#[verifier::rlimit(100)]
pub fn fill_by_steepness(
    materials: &mut MaterialField,
    density: &DensityField,
    flat_material: u8,
    steep_material: u8,
    steepness_threshold: u32,
)
    requires
        old(materials).wf(),
        density.wf(),
    ensures
        final(materials).wf(),
        forall|x: int, y: int, z: int|
            vox_in_bounds(x, y, z) ==> #[trigger] final(materials).at(x, y, z) == if vox_interior(
                x,
                y,
                z,
            ) {
                let (gx, gy, gz) = density_gradient(density, x, y, z);
                if is_steep(gx, gy, gz, steepness_threshold as int) {
                    steep_material
                } else {
                    flat_material
                }
            } else {
                old(materials).at(x, y, z)
            },
{
    let ghost chosen = |x: int, y: int, z: int|
        {
            let (gx, gy, gz) = density_gradient(density, x, y, z);
            if is_steep(gx, gy, gz, steepness_threshold as int) {
                steep_material
            } else {
                flat_material
            }
        };
    let mut i: usize = 0;
    while i < FIELD_VOLUME
        invariant
            materials.wf(),
            i <= 32768,
            forall|j: int| i <= j < 32768 ==> #[trigger] materials@[j] == old(materials)@[j],
            forall|x: int, y: int, z: int|
                vox_in_bounds(x, y, z) && vox_index(x, y, z) < i ==> #[trigger] materials.at(
                    x,
                    y,
                    z,
                ) == if vox_interior(x, y, z) {
                    chosen(x, y, z)
                } else {
                    old(materials).at(x, y, z)
                },
        decreases 32768 - i,
    {
        let x = (i % 32) as u32;
        let y = ((i / 32) % 32) as u32;
        let z = (i / 1024) as u32;
        proof {
            lemma_vox_index_cell(x as int, y as int, z as int);
        }
        if 1 <= x && x < 31 && 1 <= y && y < 31 && 1 <= z && z < 31 {
            let gx: i64 = density.get(x + 1, y, z) as i64 - density.get(x - 1, y, z) as i64;
            let gy: i64 = density.get(x, y + 1, z) as i64 - density.get(x, y - 1, z) as i64;
            let gz: i64 = density.get(x, y, z + 1) as i64 - density.get(x, y, z - 1) as i64;
            proof {
                assert(0 <= (gx as i128) * (gx as i128) < 0x100000000000000 && 0 <= (gy as i128)
                    * (gy as i128) < 0x100000000000000 && 0 <= (gz as i128) * (gz as i128)
                    < 0x100000000000000) by (nonlinear_arith)
                    requires
                        -0x10000000 < (gx as i128) < 0x10000000,
                        -0x10000000 < (gy as i128) < 0x10000000,
                        -0x10000000 < (gz as i128) < 0x10000000,
                ;
            }
            let len_sq: i128 = (gx as i128) * (gx as i128) + (gy as i128) * (gy as i128) + (
            gz as i128) * (gz as i128);
            let steep: bool = if len_sq > 0 && steepness_threshold < 1000 {
                let f: i128 = (1000 - steepness_threshold) as i128;
                proof {
                    assert(0 <= f * f <= 1000000) by (nonlinear_arith)
                        requires
                            0 < f <= 1000,
                    ;
                    assert(f * f * len_sq < 0x10000000000000000000000 && 1000000 * ((gy as i128)
                        * (gy as i128)) < 0x10000000000000000000000) by (nonlinear_arith)
                        requires
                            0 <= f * f <= 1000000,
                            0 <= len_sq < 0x1000000000000000,
                            0 <= (gy as i128) * (gy as i128) < 0x100000000000000,
                    ;
                }
                f * f * len_sq > 1000000 * ((gy as i128) * (gy as i128))
            } else {
                false
            };
            let m = if steep {
                steep_material
            } else {
                flat_material
            };
            materials.set(x, y, z, m);
        }
        i = i + 1;
    }
}

} // verus!
