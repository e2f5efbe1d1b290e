use voxel_painter::field::MaterialField;
use voxel_painter::field::FIELD_VOLUME;

#[test]
fn test_field_basics() {
    let mut f = MaterialField::new();
    assert_eq!(f.get(0, 0, 0), 0);
    f.set(5, 5, 5, 42);
    assert_eq!(f.get(5, 5, 5), 42);
}

#[test]
fn test_new_field() {
    let field = MaterialField::new();
    assert_eq!(field.as_bytes().len(), FIELD_VOLUME);
    assert!(field.as_bytes().iter().all(|&m| m == 0));
}

#[test]
fn test_filled() {
    let field = MaterialField::filled(5);
    assert!(field.as_bytes().iter().all(|&m| m == 5));
}

#[test]
fn test_get_set() {
    let mut field = MaterialField::new();
    field.set(10, 15, 20, 42);
    assert_eq!(field.get(10, 15, 20), 42);
    assert_eq!(field.get(0, 0, 0), 0);
}

#[test]
fn test_out_of_bounds() {
    let mut field = MaterialField::new();
    field.set(100, 100, 100, 99); // Should be ignored
    assert_eq!(field.get(100, 100, 100), 0); // Returns default
}

#[test]
fn field_test_paint_sphere() {
    let mut field = MaterialField::new();
    field.paint_sphere(16, 16, 16, 3, 7);

    // Center should be painted
    assert_eq!(field.get(16, 16, 16), 7);
    // Just outside should not be painted
    assert_eq!(field.get(16, 16, 20), 0);
}

#[test]
fn test_paint_sphere_negative_radius() {
    let mut field = MaterialField::new();
    field.paint_sphere(16, 16, 16, -3, 7);
    assert!(field.as_bytes().iter().all(|&m| m == 0));
}

#[test]
fn test_paint_box() {
    let mut field = MaterialField::new();
    field.paint_box(2, 3, 4, 5, 6, 7, 9);
    assert_eq!(field.get(2, 3, 4), 9);
    assert_eq!(field.get(5, 6, 7), 9);
    assert_eq!(field.get(3, 4, 5), 9);
    assert_eq!(field.get(1, 3, 4), 0);
    assert_eq!(field.get(6, 6, 7), 0);
}

#[test]
fn test_paint_box_clipped() {
    let mut field = MaterialField::new();
    field.paint_box(-5, -5, -5, 2, 2, 2, 4);
    assert_eq!(field.get(0, 0, 0), 4);
    assert_eq!(field.get(2, 2, 2), 4);
    assert_eq!(field.get(3, 2, 2), 0);
}

#[test]
fn test_paint_height_layers() {
    let mut field = MaterialField::new();
    field.paint_height_layers(&[(8, 1), (20, 2)]);
    assert_eq!(field.get(0, 5, 0), 1);
    assert_eq!(field.get(0, 10, 0), 2);
    // Above the listed maxima the last layer is the implicit fallback.
    assert_eq!(field.get(0, 25, 0), 2);
    // Only an empty table leaves the default material.
    let mut empty = MaterialField::new();
    empty.paint_height_layers(&[]);
    assert_eq!(empty.get(0, 25, 0), 0);
}

#[test]
fn test_fill() {
    let mut field = MaterialField::new();
    field.fill(3);
    assert!(field.as_bytes().iter().all(|&m| m == 3));
    field.fill(0);
    assert!(field.as_bytes().iter().all(|&m| m == 0));
}

#[test]
fn test_fill_y_levels() {
    let mut field = MaterialField::new();
    let levels: Vec<u8> = (0..32).map(|y| y as u8).collect();
    field.fill_y_levels(&levels);
    assert_eq!(field.get(3, 7, 9), 7);
    assert_eq!(field.get(0, 0, 0), 0);
    assert_eq!(field.get(31, 31, 31), 31);
}

#[test]
fn test_from_fn() {
    let field = MaterialField::from_fn(|x, y, z| (x + y + z) as u8);
    assert_eq!(field.get(1, 2, 3), 6);
    assert_eq!(field.get(0, 0, 0), 0);
    assert_eq!(field.get(31, 31, 31), 93);
}

#[test]
fn test_paint_with() {
    let mut field = MaterialField::new();
    field.paint_with(|x, _y, _z| if x < 16 { 1 } else { 2 });
    assert_eq!(field.get(0, 9, 9), 1);
    assert_eq!(field.get(20, 9, 9), 2);
}

#[test]
fn test_get_signed() {
    let mut field = MaterialField::new();
    field.set(4, 5, 6, 8);
    assert_eq!(field.get_signed(4, 5, 6), Some(8));
    assert_eq!(field.get_signed(-1, 5, 6), None);
    assert_eq!(field.get_signed(4, 32, 6), None);
}

#[test]
fn test_get_clamped() {
    let mut field = MaterialField::new();
    field.set(0, 0, 0, 9);
    field.set(31, 31, 31, 11);
    assert_eq!(field.get_clamped(-3, -1, 0), 9);
    assert_eq!(field.get_clamped(40, 35, 33), 11);
    assert_eq!(field.get_clamped(0, 0, 0), 9);
}

#[test]
fn test_in_bounds() {
    assert!(MaterialField::in_bounds(0, 0, 0));
    assert!(MaterialField::in_bounds(31, 31, 31));
    assert!(!MaterialField::in_bounds(-1, 0, 0));
    assert!(!MaterialField::in_bounds(0, 32, 0));
}
