use voxel_painter::vertex_data::unpack_bytes;
use voxel_painter::vertex_data::VertexMaterialData;

#[test]
fn test_single() {
    let data = VertexMaterialData::single(5);
    assert_eq!(data.ids, [5, 0, 0, 0]);
    assert_eq!(data.weights, [255, 0, 0, 0]);
}

#[test]
fn test_blend2_half() {
    let data = VertexMaterialData::blend2_half(0, 1);
    assert_eq!(data.ids, [0, 1, 0, 0]);
    assert_eq!(data.weights[0] as u16 + data.weights[1] as u16, 255);
}

#[test]
fn test_pack_ids() {
    let data = VertexMaterialData {
        ids: [1, 2, 3, 4],
        weights: [255, 0, 0, 0],
    };
    assert_eq!(data.pack_ids(), 1 | (2 << 8) | (3 << 16) | (4 << 24));
}

#[test]
fn test_pack_weights() {
    let data = VertexMaterialData {
        ids: [0, 0, 0, 0],
        weights: [100, 50, 75, 30],
    };
    assert_eq!(
        data.pack_weights(),
        100 | (50 << 8) | (75 << 16) | (30 << 24)
    );
}

#[test]
fn test_weight_normalization() {
    let vm = VertexMaterialData {
        ids: [0, 1, 2, 3],
        weights: [100, 100, 55, 0],
    };
    let sum: u16 = vm.weights.iter().map(|&w| w as u16).sum();
    assert_eq!(sum, 255);
}

#[test]
fn test_raw_keeps_fields() {
    let data = VertexMaterialData::raw([0, 1, 0, 0], [200, 55, 0, 0]);
    assert_eq!(data.ids, [0, 1, 0, 0]);
    assert_eq!(data.weights, [200, 55, 0, 0]);
}

#[test]
fn test_unpack_bytes() {
    assert_eq!(unpack_bytes(0x04030201), [1, 2, 3, 4]);
    assert_eq!(unpack_bytes(0), [0, 0, 0, 0]);
    assert_eq!(unpack_bytes(u32::MAX), [255, 255, 255, 255]);
}

#[test]
fn test_pack_unpack_round_trip() {
    let data = VertexMaterialData {
        ids: [17, 0, 250, 3],
        weights: [100, 50, 75, 30],
    };
    assert_eq!(unpack_bytes(data.pack_ids()), data.ids);
    assert_eq!(unpack_bytes(data.pack_weights()), data.weights);
}

#[test]
fn test_ids_within_palette() {
    let data = VertexMaterialData::raw([3, 7, 0, 0], [200, 55, 0, 0]);
    assert!(data.ids_within_palette(7));
    assert!(!data.ids_within_palette(6));
    // An unweighted slot may carry any id.
    let data = VertexMaterialData::raw([3, 9, 0, 0], [255, 0, 0, 0]);
    assert!(data.ids_within_palette(3));
}
