use noise::NoiseFn;
use noise::Perlin;
use tiletex::field::IntensityField;
use tiletex::fractal::FractalNoiseGenerator;
use tiletex::sites::SiteSet;
use tiletex::voronoi::generate_tileable_voronoi;

#[test]
fn site_set_reproducible_from_seed() {
    let a: SiteSet = SiteSet::generate(0xDEAD_BEEF, 50);
    let b: SiteSet = SiteSet::generate(0xDEAD_BEEF, 50);
    assert_eq!(a.points.len(), 50);
    assert_eq!(b.points.len(), 50);
    for i in 0..50usize {
        assert_eq!(a.points[i], b.points[i]);
    }
}

#[test]
fn voronoi_field_reproducible_from_seed() {
    let a = generate_tileable_voronoi(&SiteSet::generate(7, 5), 8).unwrap();
    let b = generate_tileable_voronoi(&SiteSet::generate(7, 5), 8).unwrap();
    assert!(a.same_as(&b));
}

/// Sample `octaves` layers of seeded Perlin noise for every pixel of a
/// `size x size` grid, in fixed-point units, as the program driver does.
fn perlin_samples(seed: u32, size: usize, octaves: usize) -> Vec<Vec<i64>> {
    let perlin: Perlin = Perlin::new(seed);
    let mut grid: Vec<Vec<i64>> = Vec::new();
    for y in 0..size {
        for x in 0..size {
            let mut per_pixel: Vec<i64> = Vec::new();
            let mut frequency: f64 = 1.0;
            for _ in 0..octaves {
                let nx: f64 = x as f64 / size as f64 * frequency;
                let ny: f64 = y as f64 / size as f64 * frequency;
                let raw: f64 = perlin.get([nx, ny]).clamp(-1.0, 1.0);
                per_pixel.push((raw * 65536.0).round() as i64);
                frequency *= 2.0;
            }
            grid.push(per_pixel);
        }
    }
    grid
}

#[test]
fn fractal_field_reproducible_from_seed() {
    let g: FractalNoiseGenerator = FractalNoiseGenerator::new(4, 32768);
    let sa: Vec<Vec<i64>> = perlin_samples(99, 8, 4);
    let sb: Vec<Vec<i64>> = perlin_samples(99, 8, 4);
    assert_eq!(sa, sb);
    let fa: IntensityField = g.field_from_samples(8, 8, &sa);
    let fb: IntensityField = g.field_from_samples(8, 8, &sb);
    assert!(fa.same_as(&fb));
}
