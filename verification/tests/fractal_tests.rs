use tiletex::fractal::FractalNoiseGenerator;

#[test]
fn silent_octaves_give_mid_gray() {
    let g: FractalNoiseGenerator = FractalNoiseGenerator::new(4, 32768);
    let samples: Vec<i64> = vec![0, 0, 0, 0];
    assert_eq!(g.intensity_from_samples(&samples), 128);
}

#[test]
fn saturated_octaves_give_extremes() {
    let g: FractalNoiseGenerator = FractalNoiseGenerator::new(3, 32768);
    assert_eq!(g.intensity_from_samples(&vec![65536, 65536, 65536]), 255);
    assert_eq!(g.intensity_from_samples(&vec![-65536, -65536, -65536]), 0);
}

#[test]
fn persistence_weights_later_octaves_less() {
    // With persistence 1/2 the second octave carries half the weight of the
    // first: +1 then -1 lands above mid-gray.
    let g: FractalNoiseGenerator = FractalNoiseGenerator::new(2, 32768);
    assert_eq!(g.intensity_from_samples(&vec![65536, -65536]), 170);
}

#[test]
fn field_from_samples_is_pixelwise() {
    let g: FractalNoiseGenerator = FractalNoiseGenerator::new(2, 32768);
    let samples: Vec<Vec<i64>> = vec![
        vec![0, 0],
        vec![65536, 65536],
        vec![-65536, -65536],
        vec![65536, -65536],
        vec![0, 65536],
        vec![32768, 0],
    ];
    let f = g.field_from_samples(3, 2, &samples);
    assert_eq!(f.width, 3);
    assert_eq!(f.height, 2);
    assert_eq!(f.get(0, 0), 128);
    assert_eq!(f.get(1, 0), 255);
    assert_eq!(f.get(2, 0), 0);
    assert_eq!(f.get(0, 1), 170);
    for y in 0..2usize {
        for x in 0..3usize {
            let i: usize = y * 3 + x;
            assert_eq!(f.get(x, y), g.intensity_from_samples(&samples[i]));
        }
    }
}
