//! The site set: the randomly placed reference points whose nearest-distance
//! field gives the texture its Voronoi structure. Randomness comes from a
//! seeded generator so that a run is reproducible from its seed.

use vstd::prelude::*;
use crate::geometry::Point;

verus! {

#[verifier::external_type_specification]
#[verifier::external_body]
pub struct ExStdRng(rand::rngs::StdRng);

/// Relies on `rand::SeedableRng::seed_from_u64`: builds a generator whose
/// output stream is determined by the seed alone.
#[verifier::external_body]
fn rng_from_seed(seed: u64) -> rand::rngs::StdRng {
    <rand::rngs::StdRng as rand::SeedableRng>::seed_from_u64(seed)
}

/// Relies on `rand::Rng::next_u32`: the next 32 bits of the generator's
/// stream. Nothing is assumed of the value.
#[verifier::external_body]
fn rng_next_u32(rng: &mut rand::rngs::StdRng) -> u32 {
    rand::Rng::next_u32(rng)
}

/// An ordered collection of sites in the unit square, fixed for a whole
/// pipeline run.
pub struct SiteSet {
    pub points: Vec<Point>,
}

impl SiteSet {
    /// Every site lies inside the unit square.
    pub open spec fn wf(self) -> bool {
        forall|i: int| 0 <= i < self.points@.len() ==> (#[trigger] self.points@[i]).wf()
    }

    /// A site set from explicitly chosen points.
    pub fn from_points(points: Vec<Point>) -> (s: SiteSet)
        requires
            forall|i: int| 0 <= i < points@.len() ==> (#[trigger] points@[i]).wf(),
        ensures
            s.wf(),
            s.points@ == points@,
    {
        SiteSet { points }
    }

    /// The number of sites.
    pub fn len(&self) -> (n: usize)
        ensures
            n == self.points@.len(),
    {
        self.points.len()
    }

    /// Draw `n` sites, each coordinate uniform over the unit square, from a
    /// generator seeded with `seed`; the same seed yields the same set.
    pub fn generate(seed: u64, n: usize) -> (s: SiteSet)
        ensures
            s.wf(),
            s.points@.len() == n,
    {
        let mut rng = rng_from_seed(seed);
        let mut points: Vec<Point> = Vec::new();
        let mut i: usize = 0;
        while i < n
            invariant
                i <= n,
                points@.len() == i,
                forall|j: int| 0 <= j < i ==> (#[trigger] points@[j]).wf(),
            decreases n - i,
        {
            let rx: u32 = rng_next_u32(&mut rng);
            let ry: u32 = rng_next_u32(&mut rng);
            points.push(Point::new(rx, ry));
            i = i + 1;
        }
        SiteSet { points }
    }
}

} // verus!
