use voxel_painter::brushes::fill_by_steepness;
use voxel_painter::brushes::fill_height_layers;
use voxel_painter::brushes::paint_sphere;
use voxel_painter::brushes::paint_surface;
use voxel_painter::density::DensityField;
use voxel_painter::field::layer_lookup_or_last;
use voxel_painter::field::MaterialField;

// One voxel in the brushes' fixed-point coordinate space.
const UNIT: i64 = 1024;

#[test]
fn brushes_test_paint_sphere() {
    let mut field = MaterialField::new();
    paint_sphere(&mut field, 16 * UNIT, 16 * UNIT, 16 * UNIT, 3 * UNIT, 5);

    // Center should be painted
    assert_eq!(field.get(16, 16, 16), 5);

    // Corner should be unpainted
    assert_eq!(field.get(0, 0, 0), 0);
}

#[test]
fn test_paint_sphere_hard_edge() {
    let mut field = MaterialField::new();
    paint_sphere(&mut field, 16 * UNIT, 16 * UNIT, 16 * UNIT, 2 * UNIT, 5);
    assert_eq!(field.get(16, 16, 16), 5);
    // Voxel centers more than two voxels away stay untouched.
    assert_eq!(field.get(16, 16, 19), 0);
    assert_eq!(field.get(12, 16, 16), 0);
}

#[test]
fn test_fill_height_layers() {
    let mut field = MaterialField::new();
    fill_height_layers(&mut field, &[(10, 1), (20, 2), (32, 3)]);

    assert_eq!(field.get(0, 5, 0), 1); // Below 10
    assert_eq!(field.get(0, 15, 0), 2); // Between 10-20
    assert_eq!(field.get(0, 25, 0), 3); // Above 20
}

#[test]
fn test_fill_height_layers_last_fallback() {
    let mut field = MaterialField::new();
    // Boundaries stop below the grid's top: rows above them take the
    // last layer.
    fill_height_layers(&mut field, &[(8, 1), (16, 2)]);
    assert_eq!(field.get(0, 4, 0), 1);
    assert_eq!(field.get(0, 12, 0), 2);
    assert_eq!(field.get(0, 30, 0), 2);
}

#[test]
fn test_fill_height_layers_empty() {
    let mut field = MaterialField::filled(9);
    fill_height_layers(&mut field, &[]);
    assert_eq!(field.get(0, 16, 0), 0);
}

#[test]
fn test_layer_lookup_or_last() {
    let layers = [(8u32, 1u8), (16, 2)];
    assert_eq!(layer_lookup_or_last(&layers, 0), 1);
    assert_eq!(layer_lookup_or_last(&layers, 8), 2);
    assert_eq!(layer_lookup_or_last(&layers, 31), 2);
    assert_eq!(layer_lookup_or_last(&[], 5), 0);
}

#[test]
fn test_paint_surface_respects_band() {
    let mut materials = MaterialField::new();
    let mut density = DensityField::new();
    // Voxel (16,16,16) sits on the surface; (17,16,16) lies deep
    // inside the solid.
    density.set(16, 16, 16, 100);
    density.set(17, 16, 16, -5000);
    paint_surface(
        &mut materials,
        &density,
        16 * UNIT + 512,
        16 * UNIT + 512,
        16 * UNIT + 512,
        3 * UNIT,
        4,
        512,
    );
    assert_eq!(materials.get(16, 16, 16), 4);
    assert_eq!(materials.get(17, 16, 16), 0);
}

#[test]
fn test_paint_surface_respects_radius() {
    let mut materials = MaterialField::new();
    // Density zero everywhere: the whole sphere is "near the surface".
    let density = DensityField::filled(0);
    paint_surface(
        &mut materials,
        &density,
        16 * UNIT,
        16 * UNIT,
        16 * UNIT,
        2 * UNIT,
        4,
        512,
    );
    assert_eq!(materials.get(16, 16, 16), 4);
    assert_eq!(materials.get(25, 16, 16), 0);
}

#[test]
fn test_fill_by_steepness_flat_ground() {
    let mut materials = MaterialField::new();
    // Density rises with height: the surface is level ground, its
    // normal vertical.
    let mut density = DensityField::new();
    for x in 0..32 {
        for y in 0..32 {
            for z in 0..32 {
                density.set(x, y, z, (y as i32 - 16) * 100);
            }
        }
    }
    fill_by_steepness(&mut materials, &density, 1, 2, 500);
    assert_eq!(materials.get(10, 10, 10), 1);
    assert_eq!(materials.get(20, 20, 20), 1);
    // The one-voxel boundary margin is left untouched.
    assert_eq!(materials.get(0, 10, 10), 0);
}

#[test]
fn test_fill_by_steepness_cliff() {
    let mut materials = MaterialField::new();
    // Density rises along x: a vertical cliff face.
    let mut density = DensityField::new();
    for x in 0..32 {
        for y in 0..32 {
            for z in 0..32 {
                density.set(x, y, z, (x as i32 - 16) * 100);
            }
        }
    }
    fill_by_steepness(&mut materials, &density, 1, 2, 500);
    assert_eq!(materials.get(10, 10, 10), 2);
    assert_eq!(materials.get(20, 20, 20), 2);
}

#[test]
fn test_fill_by_steepness_zero_gradient() {
    let mut materials = MaterialField::new();
    let density = DensityField::filled(-1024);
    fill_by_steepness(&mut materials, &density, 1, 2, 500);
    // A zero gradient counts as flat.
    assert_eq!(materials.get(10, 10, 10), 1);
}
