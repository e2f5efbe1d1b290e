use voxel_painter::blending::compute_vertex_material;
use voxel_painter::blending::compute_vertex_materials;
use voxel_painter::blending::filter_low_weights;
use voxel_painter::blending::merge_contribs;
use voxel_painter::blending::sort_by_rank;
use voxel_painter::blending::pack_single;
use voxel_painter::blending::BlendConfig;
use voxel_painter::blending::GridPoint;
use voxel_painter::density::DensityField;
use voxel_painter::field::MaterialField;
use voxel_painter::neighbor::NeighborFace;
use voxel_painter::neighbor::NeighborFields;
use voxel_painter::neighbor::NeighborSlice;

fn weight_total(vm: &voxel_painter::vertex_data::VertexMaterialData) -> u16 {
    vm.weights.iter().map(|&w| w as u16).sum()
}

#[test]
fn test_default_config() {
    let cfg = BlendConfig::default();
    assert!(cfg.density_weighted);
    assert_eq!(cfg.power, 1);
    assert_eq!(cfg.min_weight, 5);
}

#[test]
fn test_single_material() {
    // Every voxel fully exterior: the blend falls back to the nearest
    // corner's material.
    let density = DensityField::new();
    let materials = MaterialField::filled(5);
    let cfg = BlendConfig::default();

    let vm = compute_vertex_material(
        GridPoint::new(16, 16, 16, 0, 0, 0),
        &materials,
        &density,
        None,
        None,
        &cfg,
    );

    assert_eq!(vm.ids[0], 5);
    assert_eq!(vm.weights, [255, 0, 0, 0]);
}

#[test]
fn test_exterior_cube_falls_back() {
    // A cube of 8 corners all at density +1 yields the single-material
    // fallback, not a zero-weight blend.
    let density = DensityField::filled(1024);
    let materials = MaterialField::filled(9);
    let cfg = BlendConfig::default();

    let vm = compute_vertex_material(
        GridPoint::new(10, 10, 10, 300, 300, 300),
        &materials,
        &density,
        None,
        None,
        &cfg,
    );

    assert_eq!(vm.ids, [9, 0, 0, 0]);
    assert_eq!(vm.weights, [255, 0, 0, 0]);
    assert_eq!(weight_total(&vm), 255);
}

#[test]
fn test_two_material_cube_splits_evenly() {
    // Corners {density -1, id 1} x4 and {density -1, id 2} x4 blend to
    // two materials of roughly half weight each, summing to 255.
    let mut density = DensityField::new();
    let mut materials = MaterialField::new();
    for x in 10..12 {
        for y in 10..12 {
            for z in 10..12 {
                density.set(x, y, z, -1024);
                materials.set(x, y, z, if z == 10 { 1 } else { 2 });
            }
        }
    }
    let cfg = BlendConfig::default();

    let vm = compute_vertex_material(
        GridPoint::new(10, 10, 10, 0, 0, 0),
        &materials,
        &density,
        None,
        None,
        &cfg,
    );

    assert_eq!(vm.ids[0], 1);
    assert_eq!(vm.ids[1], 2);
    assert!((127..=128).contains(&vm.weights[0]));
    assert!((127..=128).contains(&vm.weights[1]));
    assert_eq!(weight_total(&vm), 255);
}

#[test]
fn test_weight_sum_always_255() {
    // A lopsided blend still lands on a weight sum of exactly 255.
    let mut density = DensityField::new();
    let mut materials = MaterialField::new();
    for x in 10..12 {
        for y in 10..12 {
            for z in 10..12 {
                materials.set(x, y, z, (x + 2 * y + 4 * z) as u8);
                density.set(x, y, z, -((x * 300 + y * 150 + z * 75) as i32));
            }
        }
    }
    let cfg = BlendConfig::default();

    let vm = compute_vertex_material(
        GridPoint::new(10, 10, 10, 511, 512, 100),
        &materials,
        &density,
        None,
        None,
        &cfg,
    );

    assert_eq!(weight_total(&vm), 255);
}

#[test]
fn test_merge_materials() {
    // Contributions 300 + 400 (of 1000) for material 1 merge to 700
    // and rank first, ahead of 200 for material 2 and 100 for
    // material 3.
    let contributions: Vec<(u8, u128)> = vec![(1, 300), (2, 200), (1, 400), (3, 100)];
    let merged = merge_contribs(&contributions);
    let ranked = sort_by_rank(merged);
    assert_eq!(ranked[0], (1, 700));
    assert_eq!(ranked[1], (2, 200));
    assert_eq!(ranked[2], (3, 100));
    assert_eq!(ranked.len(), 3);
}

#[test]
fn test_rank_ties_break_by_id() {
    let contributions: Vec<(u8, u128)> = vec![(9, 500), (4, 500), (7, 500)];
    let ranked = sort_by_rank(merge_contribs(&contributions));
    assert_eq!(ranked[0], (4, 500));
    assert_eq!(ranked[1], (7, 500));
    assert_eq!(ranked[2], (9, 500));
}

#[test]
fn test_filter_low_weights_renormalizes() {
    // Raw weights [250, 3, 2, 0] with a threshold of 5: everything but
    // the first slot is noise; the survivor takes the whole budget.
    let (ids, ws) = filter_low_weights([9, 8, 7, 6], [250, 3, 2, 0], 5);
    assert_eq!(ids, [9, 8, 7, 6]);
    assert_eq!(ws, [255, 0, 0, 0]);
    let sum: u16 = ws.iter().map(|&w| w as u16).sum();
    assert_eq!(sum, 255);
}

#[test]
fn test_filter_all_below_threshold() {
    // When filtering zeroes every slot, the first slot is forced to
    // the full weight so the sum invariant still holds.
    let (_, ws) = filter_low_weights([1, 2, 3, 4], [4, 4, 3, 2], 5);
    assert_eq!(ws, [255, 0, 0, 0]);
}

#[test]
fn test_unresolved_corners_are_excluded() {
    // A cell on the +X boundary with no neighbor cache: the corners at
    // x = 32 are unresolved and excluded. The local material keeps the
    // full weight, and no default material leaks in.
    let density = DensityField::filled(-1024);
    let materials = MaterialField::filled(3);
    let cfg = BlendConfig::default();

    let vm = compute_vertex_material(
        GridPoint::new(31, 16, 16, 0, 0, 0),
        &materials,
        &density,
        None,
        None,
        &cfg,
    );

    assert_eq!(vm.ids, [3, 0, 0, 0]);
    assert_eq!(vm.weights, [255, 0, 0, 0]);
}

#[test]
fn test_blend_across_chunk_seam() {
    // With neighbor caches present, the corners at x = 32 resolve to
    // the neighbor chunk's material and the blend spans the seam.
    let density = DensityField::filled(-1024);
    let materials = MaterialField::filled(3);
    let n_density = DensityField::filled(-1024);
    let n_materials = MaterialField::filled(7);

    let mut nm = NeighborFields::new();
    nm.set_face(
        NeighborFace::PosX,
        NeighborSlice::from_material_field(&n_materials, NeighborFace::PosX),
    );
    let mut nd = NeighborFields::new();
    nd.set_face(
        NeighborFace::PosX,
        NeighborSlice::from_density_field(&n_density, NeighborFace::PosX),
    );
    let cfg = BlendConfig::default();

    let vm = compute_vertex_material(
        GridPoint::new(31, 16, 16, 0, 0, 0),
        &materials,
        &density,
        Some(&nm),
        Some(&nd),
        &cfg,
    );

    assert_eq!(vm.ids[0], 3);
    assert_eq!(vm.ids[1], 7);
    assert!((127..=128).contains(&vm.weights[0]));
    assert!((127..=128).contains(&vm.weights[1]));
    assert_eq!(weight_total(&vm), 255);
}

#[test]
fn test_density_magnitude_shifts_weights() {
    // A corner twice as far inside weighs twice as much.
    let mut density = DensityField::new();
    let mut materials = MaterialField::new();
    for x in 10..12 {
        for y in 10..12 {
            for z in 10..12 {
                density.set(x, y, z, if z == 10 { -2048 } else { -1024 });
                materials.set(x, y, z, if z == 10 { 1 } else { 2 });
            }
        }
    }
    let cfg = BlendConfig::default();

    let vm = compute_vertex_material(
        GridPoint::new(10, 10, 10, 0, 0, 0),
        &materials,
        &density,
        None,
        None,
        &cfg,
    );

    // Material 1 carries 2/3 of the weight.
    assert_eq!(vm.ids[0], 1);
    assert_eq!(vm.ids[1], 2);
    assert_eq!(vm.weights[0], 170);
    assert_eq!(vm.weights[1], 85);
    assert_eq!(weight_total(&vm), 255);
}

#[test]
fn test_binary_weighting() {
    // With density weighting off, every interior corner counts the
    // same regardless of magnitude.
    let mut density = DensityField::new();
    let mut materials = MaterialField::new();
    for x in 10..12 {
        for y in 10..12 {
            for z in 10..12 {
                density.set(x, y, z, if z == 10 { -9000 } else { -10 });
                materials.set(x, y, z, if z == 10 { 1 } else { 2 });
            }
        }
    }
    let cfg = BlendConfig {
        density_weighted: false,
        power: 1,
        min_weight: 5,
    };

    let vm = compute_vertex_material(
        GridPoint::new(10, 10, 10, 0, 0, 0),
        &materials,
        &density,
        None,
        None,
        &cfg,
    );

    assert!((127..=128).contains(&vm.weights[0]));
    assert!((127..=128).contains(&vm.weights[1]));
    assert_eq!(weight_total(&vm), 255);
}

#[test]
fn test_pack_single() {
    let (ids, wts) = pack_single(7);
    assert_eq!(ids, u32::from_le_bytes([7, 0, 0, 0]));
    assert_eq!(wts, u32::from_le_bytes([255, 0, 0, 0]));
}

#[test]
fn test_compute_vertex_materials_packs_per_vertex() {
    let mut density = DensityField::new();
    let mut materials = MaterialField::new();
    for x in 10..12 {
        for y in 10..12 {
            for z in 10..12 {
                density.set(x, y, z, -1024);
                materials.set(x, y, z, if z == 10 { 1 } else { 2 });
            }
        }
    }
    let cfg = BlendConfig::default();
    let positions = vec![
        GridPoint::new(10, 10, 10, 0, 0, 0),
        GridPoint::new(20, 20, 20, 0, 0, 0),
    ];

    let (ids, weights) = compute_vertex_materials(
        &positions,
        &density,
        &materials,
        None,
        None,
        &cfg,
    );

    assert_eq!(ids.len(), 2);
    assert_eq!(weights.len(), 2);
    assert_eq!(ids[0], u32::from_le_bytes([1, 2, 0, 0]));
    assert_eq!(weights[0], u32::from_le_bytes([128, 127, 0, 0]));
    // The second vertex sits in fully exterior space: fallback.
    assert_eq!(ids[1], u32::from_le_bytes([0, 0, 0, 0]));
    assert_eq!(weights[1], u32::from_le_bytes([255, 0, 0, 0]));
}

#[test]
fn test_sharpness_exponent() {
    // With a sharpness exponent of 2, a corner twice as far inside
    // weighs four times as much.
    let mut density = DensityField::new();
    let mut materials = MaterialField::new();
    for x in 10..12 {
        for y in 10..12 {
            for z in 10..12 {
                density.set(x, y, z, if z == 10 { -2048 } else { -1024 });
                materials.set(x, y, z, if z == 10 { 1 } else { 2 });
            }
        }
    }
    let cfg = BlendConfig {
        density_weighted: true,
        power: 2,
        min_weight: 5,
    };

    let vm = compute_vertex_material(
        GridPoint::new(10, 10, 10, 0, 0, 0),
        &materials,
        &density,
        None,
        None,
        &cfg,
    );

    assert_eq!(vm.ids[0], 1);
    assert_eq!(vm.ids[1], 2);
    assert_eq!(vm.weights[0], 204);
    assert_eq!(vm.weights[1], 51);
    assert_eq!(weight_total(&vm), 255);
}
