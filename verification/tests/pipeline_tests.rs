use tiletex::field::IntensityField;
use tiletex::blur::directional_blur;
use tiletex::normalize::normalize_image;
use tiletex::pipeline::refine;

fn field_from(width: usize, height: usize, data: Vec<u8>) -> IntensityField {
    IntensityField::from_data(width, height, data)
}

fn sample_base() -> IntensityField {
    field_from(4, 4, vec![
        5, 90, 200, 33,
        250, 0, 128, 61,
        77, 190, 12, 240,
        101, 54, 222, 8,
    ])
}

fn sample_dir() -> IntensityField {
    field_from(4, 4, vec![
        0, 17, 34, 51,
        68, 85, 102, 119,
        136, 153, 170, 187,
        204, 221, 238, 255,
    ])
}

#[test]
fn zero_rounds_returns_base() {
    let base: IntensityField = sample_base();
    let dir: IntensityField = sample_dir();
    let out: IntensityField = refine(&base, &dir, 3, 0);
    assert!(out.same_as(&base));
}

#[test]
fn one_round_is_blur_then_normalize() {
    let base: IntensityField = sample_base();
    let dir: IntensityField = sample_dir();
    let out: IntensityField = refine(&base, &dir, 2, 1);
    let manual: IntensityField = normalize_image(&directional_blur(&base, &dir, 2));
    assert!(out.same_as(&manual));
}

#[test]
fn radius_doubles_each_round() {
    let base: IntensityField = sample_base();
    let dir: IntensityField = sample_dir();
    let out: IntensityField = refine(&base, &dir, 1, 3);
    let mut manual: IntensityField = base.duplicate();
    let mut radius: u32 = 1;
    for _ in 0..3u32 {
        manual = normalize_image(&directional_blur(&manual, &dir, radius));
        radius *= 2;
    }
    assert!(out.same_as(&manual));
}

#[test]
fn flat_base_stays_flat() {
    let base: IntensityField = field_from(3, 3, vec![64; 9]);
    let dir: IntensityField = field_from(3, 3, (0..9u8).map(|i| i * 28).collect());
    let out: IntensityField = refine(&base, &dir, 2, 2);
    assert_eq!(out.data, vec![64; 9]);
}
