use tiletex::field::IntensityField;
use tiletex::blur::directional_blur;

fn field_from(width: usize, height: usize, data: Vec<u8>) -> IntensityField {
    IntensityField::from_data(width, height, data)
}

#[test]
fn radius_zero_is_identity() {
    let src: IntensityField = field_from(4, 2, vec![3, 250, 17, 99, 0, 255, 128, 64]);
    let dir: IntensityField = field_from(4, 2, vec![0, 32, 64, 96, 128, 160, 192, 224]);
    let out: IntensityField = directional_blur(&src, &dir, 0);
    assert!(out.same_as(&src));
}

#[test]
fn horizontal_blur_wraps_around() {
    // Direction byte 0 is angle 0: sampling runs along the row and wraps at
    // the edge, so column 0 averages in the last column.
    let src: IntensityField = field_from(4, 1, vec![0, 100, 200, 40]);
    let dir: IntensityField = field_from(4, 1, vec![0, 0, 0, 0]);
    let out: IntensityField = directional_blur(&src, &dir, 1);
    assert_eq!(out.data, vec![47, 100, 113, 80]);
}

#[test]
fn vertical_blur_wraps_around() {
    // Direction byte 64 is a quarter turn: sampling runs down the column.
    let src: IntensityField = field_from(1, 4, vec![0, 100, 200, 40]);
    let dir: IntensityField = field_from(1, 4, vec![64, 64, 64, 64]);
    let out: IntensityField = directional_blur(&src, &dir, 1);
    assert_eq!(out.data, vec![47, 100, 113, 80]);
}

#[test]
fn constant_field_stays_constant() {
    let src: IntensityField = field_from(5, 5, vec![77; 25]);
    let dir: IntensityField = field_from(5, 5, (0..25u8).map(|i| i * 10).collect());
    let out: IntensityField = directional_blur(&src, &dir, 3);
    assert_eq!(out.data, vec![77; 25]);
}

fn shift(f: &IntensityField, cx: usize, cy: usize) -> IntensityField {
    let mut data: Vec<u8> = Vec::new();
    for y in 0..f.height {
        for x in 0..f.width {
            data.push(f.get((x + cx) % f.width, (y + cy) % f.height));
        }
    }
    IntensityField::from_data(f.width, f.height, data)
}

#[test]
fn tileable_under_translation() {
    // Blurring a toroidally shifted source along a shifted direction field
    // equals shifting the blurred result: the filter sees the torus, not
    // the array boundary, so no seam appears at column 0 / column W-1.
    let src: IntensityField = field_from(
        4, 4,
        vec![
            10, 200, 30, 90,
            0, 255, 120, 60,
            45, 17, 230, 140,
            99, 3, 76, 180,
        ],
    );
    let dir: IntensityField = field_from(
        4, 4,
        vec![
            0, 64, 128, 192,
            32, 96, 160, 224,
            8, 72, 136, 200,
            48, 112, 176, 240,
        ],
    );
    for &(cx, cy) in &[(1usize, 0usize), (0, 1), (3, 2), (1, 3)] {
        let blurred_then_shifted: IntensityField = shift(&directional_blur(&src, &dir, 2), cx, cy);
        let shifted_then_blurred: IntensityField =
            directional_blur(&shift(&src, cx, cy), &shift(&dir, cx, cy), 2);
        assert!(shifted_then_blurred.same_as(&blurred_then_shifted));
    }
}
