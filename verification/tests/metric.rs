use tiletex::geometry::Point;
use tiletex::geometry::toroidal_distance;

#[test]
fn symmetry_concrete() {
    let pairs: Vec<(Point, Point)> = vec![
        (Point::new(655, 655), Point::new(64881, 64881)),
        (Point::new(0, 0), Point::new(32768, 32768)),
        (Point::new(123, 45678), Point::new(60000, 2)),
        (Point::new(5, 5), Point::new(5, 5)),
    ];
    for (p, q) in pairs {
        assert_eq!(toroidal_distance(p, q), toroidal_distance(q, p));
    }
}

#[test]
fn wraparound_short_path() {
    // (0.01, 0.01) and (0.99, 0.99) in fixed-point units: the wrapped path
    // is about 0.0283 of the square's side, not the direct diagonal 1.386.
    let p: Point = Point::new(655, 655);
    let q: Point = Point::new(64881, 64881);
    let d: u32 = toroidal_distance(p, q);
    assert_eq!(d, 1852);
    // Far below a tenth of the side; the unwrapped diagonal would be ~90833.
    assert!(d < 6554);
}

#[test]
fn distance_zero_on_equal_points() {
    let p: Point = Point::new(1000, 2000);
    assert_eq!(toroidal_distance(p, p), 0);
}

#[test]
fn half_diagonal_is_max() {
    // Opposite corners of the torus: the farthest any two points can lie.
    let p: Point = Point::new(0, 0);
    let q: Point = Point::new(32768, 32768);
    assert_eq!(toroidal_distance(p, q), 46340);
}

#[test]
fn new_wraps_coordinates() {
    let p: Point = Point::new(70000, 65536);
    assert_eq!(p.x, 70000 % 65536);
    assert_eq!(p.y, 0);
}
