use tiletex::geometry::Point;
use tiletex::sites::SiteSet;
use tiletex::voronoi::{generate_tileable_voronoi, GenError};

fn single_site_set() -> SiteSet {
    SiteSet::from_points(vec![Point::new(0, 0)])
}

#[test]
fn end_to_end_single_site() {
    // SIZE = 4, one site at (0, 0): the site pixel is darkest at exactly 0,
    // the diagonally farthest pixel (2, 2) is brightest at exactly 255.
    let sites: SiteSet = single_site_set();
    let field = generate_tileable_voronoi(&sites, 4).unwrap();
    let expected: [[u8; 4]; 4] = [
        [0, 90, 180, 90],
        [90, 127, 202, 127],
        [180, 202, 255, 202],
        [90, 127, 202, 127],
    ];
    for y in 0..4usize {
        for x in 0..4usize {
            assert_eq!(field.get(x, y), expected[y][x]);
        }
    }
}

#[test]
fn site_pixel_darkest_farthest_brightest() {
    let sites: SiteSet = single_site_set();
    let field = generate_tileable_voronoi(&sites, 8).unwrap();
    let site_val: u8 = field.get(0, 0);
    let far_val: u8 = field.get(4, 4);
    assert_eq!(site_val, 0);
    assert_eq!(far_val, 255);
    for y in 0..8usize {
        for x in 0..8usize {
            let v: u8 = field.get(x, y);
            assert!(site_val <= v && v <= far_val);
        }
    }
}

#[test]
fn degenerate_grid_fails_fast() {
    // A 1x1 grid whose only pixel lies on the only site: no farthest void
    // exists to normalize by, so the stage reports the violated invariant.
    let sites: SiteSet = single_site_set();
    let r = generate_tileable_voronoi(&sites, 1);
    match r {
        Ok(_) => panic!("degenerate configuration must not produce a field"),
        Err(e) => {
            assert_eq!(e, GenError::DegenerateDistanceField);
            assert_eq!(
                e.message(),
                "distance field: every pixel lies on a site, nothing to normalize by"
            );
        }
    }
}

#[test]
fn coincident_sites_are_permitted() {
    // Duplicate sites are allowed; they simply add no coverage, so the
    // field equals the one generated from the single site.
    let doubled: SiteSet = SiteSet::from_points(vec![Point::new(0, 0), Point::new(0, 0)]);
    let single: SiteSet = single_site_set();
    let a = generate_tileable_voronoi(&doubled, 4).unwrap();
    let b = generate_tileable_voronoi(&single, 4).unwrap();
    assert!(a.same_as(&b));
}

#[test]
fn two_sites_field_dimensions() {
    let sites: SiteSet = SiteSet::from_points(vec![
        Point::new(0, 0),
        Point::new(32768, 32768),
    ]);
    let field = generate_tileable_voronoi(&sites, 6).unwrap();
    assert_eq!(field.width, 6);
    assert_eq!(field.height, 6);
    assert_eq!(field.data.len(), 36);
    // Both site pixels are darkest.
    assert_eq!(field.get(0, 0), 0);
    assert_eq!(field.get(3, 3), 0);
}
