use tiletex::field::IntensityField;
use tiletex::normalize::normalize_image;

fn field_from(width: usize, height: usize, data: Vec<u8>) -> IntensityField {
    IntensityField::from_data(width, height, data)
}

#[test]
fn stretches_to_full_range() {
    let f: IntensityField = field_from(4, 1, vec![10, 20, 30, 250]);
    let n: IntensityField = normalize_image(&f);
    assert_eq!(n.data, vec![0, 11, 21, 255]);
}

#[test]
fn surjective_on_non_constant_input() {
    let f: IntensityField = field_from(3, 2, vec![100, 120, 140, 101, 99, 133]);
    let n: IntensityField = normalize_image(&f);
    let mn: u8 = *n.data.iter().min().unwrap();
    let mx: u8 = *n.data.iter().max().unwrap();
    assert_eq!(mn, 0);
    assert_eq!(mx, 255);
}

#[test]
fn idempotent_on_non_constant_input() {
    let f: IntensityField = field_from(4, 2, vec![7, 19, 23, 200, 6, 250, 128, 64]);
    let once: IntensityField = normalize_image(&f);
    let twice: IntensityField = normalize_image(&once);
    assert!(twice.same_as(&once));
}

#[test]
fn flat_field_unchanged() {
    let f: IntensityField = field_from(3, 3, vec![42; 9]);
    let n: IntensityField = normalize_image(&f);
    assert!(n.same_as(&f));
}

#[test]
fn idempotent_on_flat_input() {
    let f: IntensityField = field_from(2, 2, vec![9, 9, 9, 9]);
    let once: IntensityField = normalize_image(&f);
    let twice: IntensityField = normalize_image(&once);
    assert!(twice.same_as(&once));
}
