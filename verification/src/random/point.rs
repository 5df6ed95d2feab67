//! Points drawn at random.
use vstd::prelude::*;
use rand::rngs::StdRng;
use crate::geometry::point::Point;
use crate::geometry::region::Region;
use crate::random::source::random_in_inclusive;

verus! {

impl Point {
    /// A point of `within`, which must not be empty, drawn at random.
    pub fn random(rng: &mut StdRng, within: &Region) -> (p: Point)
        requires
            within.start.0 <= within.end.0,
            within.start.1 <= within.end.1,
        ensures
            within.spec_contains(p),
    {
        let x = random_in_inclusive(rng, within.start.x(), within.end.x());
        let y = random_in_inclusive(rng, within.start.y(), within.end.y());
        Point(x, y)
    }
}

} // verus!
