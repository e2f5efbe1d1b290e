use voxel_painter::density::DensityField;
use voxel_painter::field::MaterialField;
use voxel_painter::neighbor::NeighborFace;
use voxel_painter::neighbor::NeighborFields;
use voxel_painter::neighbor::NeighborMaterialFields;
use voxel_painter::neighbor::NeighborSlice;
use voxel_painter::neighbor::NEIGHBOR_DEPTH;

#[test]
fn test_sample_missing_slice_returns_none() {
    // An out-of-bounds coordinate with no cached slice on the relevant
    // face reads None, never a default value.
    let nf: NeighborMaterialFields = NeighborFields::new();
    assert_eq!(nf.sample(-1, 5, 5), None);
    assert_eq!(nf.sample(32, 5, 5), None);
    assert_eq!(nf.sample(5, -1, 5), None);
    assert_eq!(nf.sample(5, 32, 5), None);
    assert_eq!(nf.sample(5, 5, -1), None);
    assert_eq!(nf.sample(5, 5, 32), None);
}

#[test]
fn test_sample_in_bounds_returns_none() {
    let mut nf: NeighborMaterialFields = NeighborFields::new();
    let neighbor = MaterialField::filled(3);
    nf.set_face(
        NeighborFace::NegX,
        NeighborSlice::from_material_field(&neighbor, NeighborFace::NegX),
    );
    // In-bounds positions are not the cache's business.
    assert_eq!(nf.sample(5, 5, 5), None);
}

#[test]
fn test_sample_through_slice() {
    let neighbor = MaterialField::filled(3);
    let mut nf: NeighborMaterialFields = NeighborFields::new();
    nf.set_face(
        NeighborFace::NegX,
        NeighborSlice::from_material_field(&neighbor, NeighborFace::NegX),
    );
    assert_eq!(nf.sample(-1, 5, 5), Some(3));
    // The +X face has no slice.
    assert_eq!(nf.sample(32, 5, 5), None);
}

#[test]
fn test_sample_diagonal_returns_none() {
    let neighbor = MaterialField::filled(3);
    let mut nf: NeighborMaterialFields = NeighborFields::new();
    for face in NeighborFace::all() {
        nf.set_face(face, NeighborSlice::from_material_field(&neighbor, face));
    }
    // Out of range on two axes at once: no single face covers it.
    assert_eq!(nf.sample(-1, -1, 5), None);
    assert_eq!(nf.sample(32, 5, 32), None);
}

#[test]
fn test_slice_reads_opposite_boundary() {
    // A request for "my -X neighbor" reads that neighbor's far-X
    // boundary: depth 0 is its x = 31 plane.
    let mut neighbor = MaterialField::new();
    neighbor.set(31, 2, 3, 9);
    neighbor.set(30, 4, 5, 8);
    let slice = NeighborSlice::from_material_field(&neighbor, NeighborFace::NegX);
    assert_eq!(slice.get(2, 3, 0), Some(9));
    assert_eq!(slice.get(4, 5, 1), Some(8));
    assert_eq!(slice.get(2, 3, 1), Some(0));

    // A request for "my +X neighbor" reads its near-X boundary.
    let mut neighbor2 = MaterialField::new();
    neighbor2.set(0, 6, 7, 4);
    let slice2 = NeighborSlice::from_material_field(&neighbor2, NeighborFace::PosX);
    assert_eq!(slice2.get(6, 7, 0), Some(4));
}

#[test]
fn test_slice_depth_exhaustion() {
    let neighbor = MaterialField::filled(2);
    let slice = NeighborSlice::from_material_field(&neighbor, NeighborFace::PosY);
    assert_eq!(slice.depth(), NEIGHBOR_DEPTH);
    assert_eq!(slice.get(0, 0, 1), Some(2));
    // Beyond the cached depth: unknown, not a default.
    assert_eq!(slice.get(0, 0, 2), None);
    assert_eq!(slice.get(32, 0, 0), None);
    assert_eq!(slice.get(0, 32, 0), None);
}

#[test]
fn test_density_slice() {
    let den = DensityField::filled(-1024);
    let slice = NeighborSlice::from_density_field(&den, NeighborFace::PosZ);
    assert_eq!(slice.get(10, 10, 0), Some(-1024));
    assert_eq!(slice.get(10, 10, 2), None);
}

#[test]
fn test_face_offsets() {
    assert_eq!(NeighborFace::NegX.offset(), (-1, 0, 0));
    assert_eq!(NeighborFace::PosX.offset(), (1, 0, 0));
    assert_eq!(NeighborFace::NegY.offset(), (0, -1, 0));
    assert_eq!(NeighborFace::PosY.offset(), (0, 1, 0));
    assert_eq!(NeighborFace::NegZ.offset(), (0, 0, -1));
    assert_eq!(NeighborFace::PosZ.offset(), (0, 0, 1));
}

#[test]
fn test_sample_depth_translation() {
    // Position x = -2 reads depth 1 of the -X slice.
    let mut neighbor = MaterialField::new();
    neighbor.set(30, 5, 5, 7);
    let mut nf: NeighborMaterialFields = NeighborFields::new();
    nf.set_face(
        NeighborFace::NegX,
        NeighborSlice::from_material_field(&neighbor, NeighborFace::NegX),
    );
    assert_eq!(nf.sample(-2, 5, 5), Some(7));
    // Deeper than the cache stores: unknown.
    assert_eq!(nf.sample(-3, 5, 5), None);
}

#[test]
fn test_opposite_faces() {
    assert_eq!(NeighborFace::NegX.opposite(), NeighborFace::PosX);
    assert_eq!(NeighborFace::PosY.opposite(), NeighborFace::NegY);
    assert_eq!(NeighborFace::NegZ.opposite(), NeighborFace::PosZ);
}

#[test]
fn test_to_field_coords() {
    assert_eq!(NeighborFace::NegX.to_field_coords(2, 3, 0), (31, 2, 3));
    assert_eq!(NeighborFace::PosX.to_field_coords(2, 3, 1), (1, 2, 3));
    assert_eq!(NeighborFace::PosZ.to_field_coords(4, 5, 0), (4, 5, 0));
    assert_eq!(NeighborFace::NegY.to_field_coords(4, 5, 1), (4, 30, 5));
}

#[test]
fn test_from_sampler() {
    let slice: NeighborSlice<u8> = NeighborSlice::from_sampler(|a, b, d| (a + b + d) as u8);
    assert_eq!(slice.get(1, 2, 1), Some(4));
    assert_eq!(slice.get(0, 0, 0), Some(0));
    assert_eq!(slice.get(0, 0, 2), None);
}
