use voxel_painter::palette::validate_material_count;
use voxel_painter::palette::PaletteValidationError;
use voxel_painter::palette::MAX_MATERIALS;

#[test]
fn test_material_count_ok() {
    assert_eq!(validate_material_count(3, 10), Ok(()));
    assert_eq!(validate_material_count(0, 0), Ok(()));
    assert_eq!(validate_material_count(128, 128), Ok(()));
}

#[test]
fn test_material_count_exceeds_max() {
    assert_eq!(
        validate_material_count(129, 200),
        Err(PaletteValidationError::ExceedsMaxMaterials {
            count: 129,
            max: MAX_MATERIALS,
        })
    );
}

#[test]
fn test_material_count_exceeds_layers() {
    assert_eq!(
        validate_material_count(5, 2),
        Err(PaletteValidationError::TooManyMaterials {
            material_count: 5,
            layer_count: 2,
        })
    );
}
