//! The toroidal Voronoi distance field: per pixel, the distance to the
//! nearest site, globally normalized by the farthest such distance and
//! quantized so that sites are dark and the deepest voids are bright.

use vstd::prelude::*;
use crate::math::{
    rdiv, rdiv_up, lemma_rdiv_up_range, lemma_rdiv_up_monotone, lemma_rdiv_up_exact,
    lemma_div_below,
};
use vstd::arithmetic::div_mod::lemma_fundamental_div_mod;
use crate::geometry::{Point, toroidal_dist, toroidal_distance, lemma_toroidal_dist_range};
use crate::field::IntensityField;
use crate::sites::SiteSet;

verus! {

/// A stage failure on a degenerate configuration.
#[derive(Clone, Copy, PartialEq, Eq, Structural, Debug)]
pub enum GenError {
    /// Every pixel of the grid coincides with a site, so the distance field
    /// has no farthest void to normalize by.
    DegenerateDistanceField,
}

impl GenError {
    /// A diagnostic naming the stage and the violated invariant.
    pub fn message(&self) -> (m: &'static str)
        ensures
            m@ == "distance field: every pixel lies on a site, nothing to normalize by"@,
    {
        "distance field: every pixel lies on a site, nothing to normalize by"
    }
}

/// The fixed-point sample position of pixel index `v` on an axis of `size`
/// pixels: the floor of `v / size` in units of 1/65536.
pub open spec fn sample_coord(v: int, size: int) -> int {
    v * 65536 / size
}

/// The sample point of pixel `(x, y)` on a square grid of `size` pixels.
pub open spec fn pixel_point(x: int, y: int, size: int) -> Point {
    Point { x: sample_coord(x, size) as u32, y: sample_coord(y, size) as u32 }
}

/// The distance from `p` to the nearest of the sites (a sentinel beyond
/// every toroidal distance when there are none).
pub open spec fn min_site_dist(sites: Seq<Point>, p: Point) -> int
    decreases sites.len(),
{
    if sites.len() == 0 {
        0x1_0000_0000
    } else {
        let d: int = toroidal_dist(p, sites.last());
        let m: int = min_site_dist(sites.drop_last(), p);
        if d < m {
            d
        } else {
            m
        }
    }
}

/// The largest nearest-site distance among the first `n` pixels in row-major
/// order (0 when there are none).
pub open spec fn grid_max_dist(sites: Seq<Point>, size: int, n: int) -> int
    decreases n,
{
    if n <= 0 {
        0
    } else {
        let d: int = min_site_dist(sites, pixel_point((n - 1) % size, (n - 1) / size, size));
        let m: int = grid_max_dist(sites, size, n - 1);
        if d > m {
            d
        } else {
            m
        }
    }
}

/// The farthest any pixel of the grid lies from every site.
pub open spec fn max_min_dist(sites: Seq<Point>, size: int) -> int {
    grid_max_dist(sites, size, size * size)
}

/// The 8-bit intensity of a pixel at nearest-site distance `d`, under global
/// maximum `maxd`: `255 - round((1 - d / maxd) * 255)`, so a site maps to 0
/// and the farthest void to 255.
pub open spec fn dist_intensity(d: int, maxd: int) -> int {
    255 - rdiv_up(255 * (maxd - d), maxd)
}

/// The whole distance field of a `size x size` grid.
pub open spec fn spec_distance_field(sites: Seq<Point>, size: int) -> Seq<u8> {
    Seq::new((size * size) as nat,
        |i: int| dist_intensity(
            min_site_dist(sites, pixel_point(i % size, i / size, size)),
            max_min_dist(sites, size),
        ) as u8)
}

/// The nearest-site distance never exceeds the distance to any one site,
/// and is never negative.
pub proof fn lemma_min_site_dist_bounds(sites: Seq<Point>, p: Point, j: int)
    requires
        0 <= j < sites.len(),
    ensures
        0 <= min_site_dist(sites, p) <= toroidal_dist(p, sites[j]),
    decreases sites.len(),
{
    lemma_min_site_dist_nonneg(sites, p);
    if j < sites.len() - 1 {
        lemma_min_site_dist_bounds(sites.drop_last(), p, j);
    }
}

/// The nearest-site distance is non-negative.
pub proof fn lemma_min_site_dist_nonneg(sites: Seq<Point>, p: Point)
    ensures
        min_site_dist(sites, p) >= 0,
    decreases sites.len(),
{
    if sites.len() > 0 {
        lemma_min_site_dist_nonneg(sites.drop_last(), p);
        crate::math::lemma_sqrt_floor_bounds(crate::geometry::dist_sq(p, sites.last()) as nat);
    }
}

/// Every pixel's nearest-site distance is bounded by the grid maximum.
pub proof fn lemma_grid_max_dist_ge(sites: Seq<Point>, size: int, n: int, i: int)
    requires
        0 <= i < n,
    ensures
        min_site_dist(sites, pixel_point(i % size, i / size, size))
            <= grid_max_dist(sites, size, n),
        grid_max_dist(sites, size, n) >= 0,
    decreases n,
{
    lemma_grid_max_dist_nonneg(sites, size, n);
    if i < n - 1 {
        lemma_grid_max_dist_ge(sites, size, n - 1, i);
    }
}

/// The grid maximum is never negative.
pub proof fn lemma_grid_max_dist_nonneg(sites: Seq<Point>, size: int, n: int)
    ensures
        grid_max_dist(sites, size, n) >= 0,
    decreases n,
{
    if n > 0 {
        lemma_grid_max_dist_nonneg(sites, size, n - 1);
    }
}

/// The grid maximum is non-negative and is attained by some pixel.
pub proof fn lemma_grid_max_dist_attained(sites: Seq<Point>, size: int, n: int)
    requires
        n > 0,
    ensures
        exists|i: int| 0 <= i < n && #[trigger] min_site_dist(
            sites, pixel_point(i % size, i / size, size)) == grid_max_dist(sites, size, n),
    decreases n,
{
    let d: int = min_site_dist(sites, pixel_point((n - 1) % size, (n - 1) / size, size));
    if n == 1 {
        assert(grid_max_dist(sites, size, 0) == 0);
        lemma_min_site_dist_nonneg(sites, pixel_point(0int % size, 0int / size, size));
        assert(min_site_dist(sites, pixel_point((n - 1) % size, (n - 1) / size, size))
            == grid_max_dist(sites, size, n));
    } else {
        lemma_grid_max_dist_attained(sites, size, n - 1);
        if d > grid_max_dist(sites, size, n - 1) {
            assert(min_site_dist(sites, pixel_point((n - 1) % size, (n - 1) / size, size))
                == grid_max_dist(sites, size, n));
        } else {
            let i: int = choose|i: int| 0 <= i < n - 1 && #[trigger] min_site_dist(
                sites, pixel_point(i % size, i / size, size))
                == grid_max_dist(sites, size, n - 1);
            assert(min_site_dist(sites, pixel_point(i % size, i / size, size))
                == grid_max_dist(sites, size, n));
        }
    }
}

/// The quantization maps distance 0 to intensity 0, the farthest distance to
/// intensity 255, stays inside `[0, 255]`, and orders intensities as it
/// orders distances.
pub proof fn lemma_dist_intensity_shape(d1: int, d2: int, maxd: int)
    requires
        0 < maxd,
        0 <= d1 <= maxd,
        0 <= d2 <= maxd,
    ensures
        0 <= dist_intensity(d1, maxd) <= 255,
        d1 == 0 ==> dist_intensity(d1, maxd) == 0,
        d1 == maxd ==> dist_intensity(d1, maxd) == 255,
        d1 <= d2 ==> dist_intensity(d1, maxd) <= dist_intensity(d2, maxd),
{
    assert(255 * (maxd - d1) <= 255 * maxd);
    lemma_rdiv_up_range(255 * (maxd - d1), maxd, 255);
    lemma_rdiv_up_range(255 * (maxd - d2), maxd, 255);
    if d1 == 0 {
        lemma_rdiv_up_exact(255, maxd);
        assert(255 * (maxd - 0) == 255 * maxd);
    }
    if d1 == maxd {
        assert(255 * (maxd - d1) == 0);
        lemma_rdiv_up_range(0, maxd, 0);
    }
    if d1 <= d2 {
        lemma_rdiv_up_monotone(255 * (maxd - d2), 255 * (maxd - d1), maxd);
    }
}

/// The shape of the distance field (the testable ordering): pixels on a site
/// are darkest at intensity 0, the farthest pixels are brightest at exactly
/// 255, every value lies in `[0, 255]`, and intensity never decreases as the
/// nearest-site distance grows.
pub proof fn lemma_distance_field_extremes(sites: Seq<Point>, size: int)
    requires
        size >= 1,
        max_min_dist(sites, size) > 0,
    ensures
        forall|i: int| 0 <= i < size * size ==>
            0 <= #[trigger] spec_distance_field(sites, size)[i] <= 255,
        forall|i: int| 0 <= i < size * size
            && min_site_dist(sites, pixel_point(i % size, i / size, size)) == 0
            ==> #[trigger] spec_distance_field(sites, size)[i] == 0,
        exists|i: int| 0 <= i < size * size
            && #[trigger] spec_distance_field(sites, size)[i] == 255,
        forall|i: int, j: int| 0 <= i < size * size && 0 <= j < size * size
            && min_site_dist(sites, pixel_point(i % size, i / size, size))
                <= min_site_dist(sites, pixel_point(j % size, j / size, size))
            ==> #[trigger] spec_distance_field(sites, size)[i]
                <= #[trigger] spec_distance_field(sites, size)[j],
{
    let maxd: int = max_min_dist(sites, size);
    let n: int = size * size;
    assert(n >= 1) by (nonlinear_arith)
        requires size >= 1, n == size * size,
    ;
    assert forall|i: int, j: int| 0 <= i < n && 0 <= j < n
        && min_site_dist(sites, pixel_point(i % size, i / size, size))
            <= min_site_dist(sites, pixel_point(j % size, j / size, size))
        implies #[trigger] spec_distance_field(sites, size)[i]
            <= #[trigger] spec_distance_field(sites, size)[j] by {
        let di: int = min_site_dist(sites, pixel_point(i % size, i / size, size));
        let dj: int = min_site_dist(sites, pixel_point(j % size, j / size, size));
        lemma_min_site_dist_nonneg(sites, pixel_point(i % size, i / size, size));
        lemma_min_site_dist_nonneg(sites, pixel_point(j % size, j / size, size));
        lemma_grid_max_dist_ge(sites, size, n, i);
        lemma_grid_max_dist_ge(sites, size, n, j);
        lemma_dist_intensity_shape(di, dj, maxd);
        lemma_dist_intensity_shape(dj, di, maxd);
    }
    assert forall|i: int| 0 <= i < n implies
        0 <= #[trigger] spec_distance_field(sites, size)[i] <= 255 by {
        let di: int = min_site_dist(sites, pixel_point(i % size, i / size, size));
        lemma_min_site_dist_nonneg(sites, pixel_point(i % size, i / size, size));
        lemma_grid_max_dist_ge(sites, size, n, i);
        lemma_dist_intensity_shape(di, di, maxd);
    }
    assert forall|i: int| 0 <= i < n
        && min_site_dist(sites, pixel_point(i % size, i / size, size)) == 0
        implies #[trigger] spec_distance_field(sites, size)[i] == 0 by {
        lemma_grid_max_dist_ge(sites, size, n, i);
        lemma_dist_intensity_shape(0, 0, maxd);
    }
    lemma_grid_max_dist_attained(sites, size, n);
    let w: int = choose|i: int| 0 <= i < n && #[trigger] min_site_dist(
        sites, pixel_point(i % size, i / size, size)) == grid_max_dist(sites, size, n);
    lemma_min_site_dist_nonneg(sites, pixel_point(w % size, w / size, size));
    lemma_dist_intensity_shape(maxd, maxd, maxd);
    assert(spec_distance_field(sites, size)[w] == 255);
}

/// The nearest-site distance of one sample point, by a scan over the sites.
pub fn nearest_site_distance(sites: &SiteSet, p: Point) -> (d: u32)
    requires
        sites.wf(),
        sites.points@.len() >= 1,
        p.wf(),
    ensures
        d as int == min_site_dist(sites.points@, p),
        d <= 46341,
{
    let n: usize = sites.points.len();
    let mut best: u64 = 0x1_0000_0000;
    let mut i: usize = 0;
    while i < n
        invariant
            i <= n,
            n == sites.points@.len(),
            sites.wf(),
            p.wf(),
            best == min_site_dist(sites.points@.take(i as int), p),
            best <= 0x1_0000_0000,
        decreases n - i,
    {
        let site: Point = sites.points[i];
        let d: u32 = toroidal_distance(p, site);
        proof {
            assert(sites.points@.take(i + 1).drop_last() =~= sites.points@.take(i as int));
            assert(sites.points@.take(i + 1).last() == sites.points@[i as int]);
        }
        if (d as u64) < best {
            best = d as u64;
        }
        i = i + 1;
    }
    proof {
        assert(sites.points@.take(n as int) =~= sites.points@);
        lemma_min_site_dist_bounds(sites.points@, p, 0);
        lemma_toroidal_dist_range(p, sites.points@[0]);
    }
    best as u32
}

/// The sample point of pixel `(x, y)`, in fixed-point coordinates.
fn pixel_sample_point(x: usize, y: usize, size: usize) -> (p: Point)
    requires
        1 <= size <= 65536,
        x < size,
        y < size,
    ensures
        p == pixel_point(x as int, y as int, size as int),
        p.wf(),
    {
    proof {
        lemma_div_below(x * 65536, size as int, 65536);
        lemma_div_below(y * 65536, size as int, 65536);
        assert(x * 65536 < size * 65536) by (nonlinear_arith)
            requires 0 <= x < size,
        ;
        assert(y * 65536 < size * 65536) by (nonlinear_arith)
            requires 0 <= y < size,
        ;
        assert(x * 65536 >= 0) by (nonlinear_arith)
            requires x >= 0,
        ;
        assert(y * 65536 >= 0) by (nonlinear_arith)
            requires y >= 0,
        ;
        lemma_fundamental_div_mod(x * 65536, size as int);
        lemma_fundamental_div_mod(y * 65536, size as int);
    }
    let px: u64 = (x as u64) * 65536 / (size as u64);
    let py: u64 = (y as u64) * 65536 / (size as u64);
    Point { x: px as u32, y: py as u32 }
}

/// Generate the seamless Voronoi distance field of a `size x size` grid.
///
/// Two passes: the first finds the global farthest nearest-site distance,
/// the second synthesizes the quantized field from it. Fails only when that
/// global maximum is zero (every pixel coincides with a site), the one
/// degenerate configuration, and succeeds on every other input.
pub fn generate_tileable_voronoi(sites: &SiteSet, size: usize) -> (r: Result<
    IntensityField,
    GenError,
>)
    requires
        sites.wf(),
        sites.points@.len() >= 1,
        1 <= size <= 65536,
        size * size <= usize::MAX,
    ensures
        match r {
            Ok(f) => {
                &&& max_min_dist(sites.points@, size as int) > 0
                &&& f.wf()
                &&& f.width == size
                &&& f.height == size
                &&& f.data@ == spec_distance_field(sites.points@, size as int)
            },
            Err(e) => {
                &&& max_min_dist(sites.points@, size as int) == 0
                &&& e == GenError::DegenerateDistanceField
            },
        },
{
    let n: usize = size * size;
    assert(n >= 1) by (nonlinear_arith)
        requires size >= 1, n == size * size,
    ;

    // Pass 1: the farthest any pixel lies from every site.
    let mut maxd: u32 = 0;
    let mut idx: usize = 0;
    while idx < n
        invariant
            idx <= n,
            n == size * size,
            1 <= size <= 65536,
            sites.wf(),
            sites.points@.len() >= 1,
            maxd as int == grid_max_dist(sites.points@, size as int, idx as int),
            maxd <= 46341,
        decreases n - idx,
    {
        let x: usize = idx % size;
        let y: usize = idx / size;
        proof {
            lemma_div_below(idx as int, size as int, size as int);
        }
        let p: Point = pixel_sample_point(x, y, size);
        let d: u32 = nearest_site_distance(sites, p);
        if d > maxd {
            maxd = d;
        }
        idx = idx + 1;
    }

    if maxd == 0 {
        return Err(GenError::DegenerateDistanceField);
    }

    // Pass 2: synthesize the image from the global maximum.
    let ghost maxd_spec: int = max_min_dist(sites.points@, size as int);
    let mut data: Vec<u8> = Vec::new();
    let mut idx: usize = 0;
    while idx < n
        invariant
            idx <= n,
            n == size * size,
            1 <= size <= 65536,
            sites.wf(),
            sites.points@.len() >= 1,
            maxd as int == maxd_spec,
            maxd_spec == max_min_dist(sites.points@, size as int),
            0 < maxd <= 46341,
            data@.len() == idx,
            forall|j: int| 0 <= j < idx ==> data@[j]
                == spec_distance_field(sites.points@, size as int)[j],
        decreases n - idx,
    {
        let x: usize = idx % size;
        let y: usize = idx / size;
        proof {
            lemma_div_below(idx as int, size as int, size as int);
        }
        let p: Point = pixel_sample_point(x, y, size);
        let d: u32 = nearest_site_distance(sites, p);
        proof {
            lemma_grid_max_dist_ge(sites.points@, size as int, n as int, idx as int);
            lemma_dist_intensity_shape(d as int, d as int, maxd_spec);
        }
        let q: u64 = rdiv(255 * ((maxd - d) as u64), maxd as u64);
        let v: u8 = (255 - q) as u8;
        data.push(v);
        idx = idx + 1;
    }
    assert(data@ =~= spec_distance_field(sites.points@, size as int));
    Ok(IntensityField { width: size, height: size, data })
}

} // verus!
