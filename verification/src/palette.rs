//! Bounds checking for material palettes.
//!
//! A palette binds material ids to layers of a texture array. The
//! texture formats themselves live with the renderer; what belongs to
//! the material model is the counting rule: a palette may hold at most
//! [`MAX_MATERIALS`] materials, and never more than the texture array
//! has layers.

use vstd::prelude::*;

verus! {

/// Maximum number of materials supported in a single palette.
///
/// The per-material properties live in a uniform buffer of fixed
/// capacity; for voxel terrain, 128 materials is more than sufficient.
pub const MAX_MATERIALS: usize = 128;

/// Errors from validating a palette's material count.
#[derive(Clone, Copy, Debug, PartialEq, Eq, Structural)]
pub enum PaletteValidationError {
    /// The material count exceeds the fixed palette capacity.
    ExceedsMaxMaterials { count: usize, max: usize },
    /// The material count exceeds the texture array's layer count.
    TooManyMaterials { material_count: usize, layer_count: u32 },
}

/// Validates a material count against the texture layer count and the
/// palette maximum. Returns `Ok` exactly when the count fits both.
pub fn validate_material_count(material_count: usize, layer_count: u32) -> (r: Result<
    (),
    PaletteValidationError,
>)
    ensures
        material_count > 128 ==> r == Err::<(), PaletteValidationError>(
            PaletteValidationError::ExceedsMaxMaterials { count: material_count, max: 128usize },
        ),
        material_count <= 128 && material_count > layer_count ==> r == Err::<
            (),
            PaletteValidationError,
        >(
            PaletteValidationError::TooManyMaterials { material_count, layer_count },
        ),
        material_count <= 128 && material_count <= layer_count ==> r == Ok::<
            (),
            PaletteValidationError,
        >(()),
{
    if material_count > MAX_MATERIALS {
        return Err(
            PaletteValidationError::ExceedsMaxMaterials {
                count: material_count,
                max: MAX_MATERIALS,
            },
        );
    }
    if material_count > layer_count as usize {
        return Err(PaletteValidationError::TooManyMaterials { material_count, layer_count });
    }
    Ok(())
}

} // verus!
