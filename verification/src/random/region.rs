//! Regions and their points drawn at random.
use vstd::prelude::*;
use rand::rngs::StdRng;
use crate::geometry::point::Point;
use crate::geometry::region::{Containable, Region};
use crate::random::source::random_in;
use crate::geometry::point::shifted;

verus! {

/// The region in which the ends of shapes drawn in `region` may lie: one more cell on the
/// right and at the bottom, where the last cells end.
pub open spec fn end_area(region: Region) -> Region {
    region.spec_enlarged(1i32, 1i32)
}

/// The point `(x, y)` away from `start` is a possible end for a shape drawn from `start` in
/// `region`: it lies on a diagonal of `start`, within the mirrored width and height of the end
/// area, in the end area, and is not `start` itself.
pub open spec fn is_end_candidate(region: Region, start: Point, x: int, y: int) -> bool {
    let area = end_area(region);
    let p = start.spec_translated(x as i32, y as i32);
    &&& -area.spec_width() <= x <= area.spec_width()
    &&& -area.spec_height() <= y <= area.spec_height()
    &&& (x == y || x == -y)
    &&& p != start
    &&& area.spec_contains(p)
}

/// A possible end for a shape drawn from `start` in `region` (see `is_end_candidate`).
pub open spec fn is_end_for(region: Region, start: Point, p: Point) -> bool {
    exists|x: int, y: int|
        #[trigger] is_end_candidate(region, start, x, y) && p == start.spec_translated(
            x as i32,
            y as i32,
        )
}

/// The search of ends from `start` in `region` stays within `i32`: the region is not empty,
/// its end area is a valid region, and `start` moved right or down by the width or height of
/// the end area fits in `i32`.
pub open spec fn small_enough(region: Region, start: Point) -> bool {
    &&& end_area(region).valid()
    &&& region.start.0 <= region.end.0
    &&& region.start.1 <= region.end.1
    &&& start.0 + (region.end.0 - region.start.0) + 2 <= i32::MAX
    &&& start.1 + (region.end.1 - region.start.1) + 2 <= i32::MAX
}

/// Ends can be searched from every point of `region` within `i32` (see `small_enough`).
pub open spec fn searchable(region: Region) -> bool {
    &&& region.start.0 <= region.end.0
    &&& region.start.1 <= region.end.1
    &&& region.end.0 + (region.end.0 - region.start.0) + 2 <= i32::MAX
    &&& region.end.1 + (region.end.1 - region.start.1) + 2 <= i32::MAX
}

/// From a point of a searchable region, ends can be searched, and one cell down and to the
/// right is always a possible end.
pub proof fn lemma_diagonal_neighbor(region: Region, start: Point)
    requires
        searchable(region),
        region.spec_contains(start),
    ensures
        small_enough(region, start),
        is_end_candidate(region, start, 1, 1),
{
    let a = start.0;
    let b = start.1;
    assert(a as i32 == a) by (bit_vector)
        requires
            a <= 0x7fff_ffffusize,
    ;
    assert(b as i32 == b) by (bit_vector)
        requires
            b <= 0x7fff_ffffusize,
    ;
    assert(shifted(a, 1i32) == a + 1);
    assert(shifted(b, 1i32) == b + 1);
}

impl Region {
    /// Whether ends can be searched from every point of the region (see `searchable`).
    pub fn can_search_ends(&self) -> (r: bool)
        ensures
            r == searchable(*self),
    {
        let (sx, sy) = (self.start.0 as u128, self.start.1 as u128);
        let (ex, ey) = (self.end.0 as u128, self.end.1 as u128);
        sx <= ex && sy <= ey && ex + (ex - sx) + 2 <= 0x7fff_ffff && ey + (ey - sy) + 2
            <= 0x7fff_ffff
    }

    /// An end for a shape drawn from `start`, drawn at random among the possible ones (see
    /// `is_end_candidate`); there must be one.
    pub fn random_end(&self, rng: &mut StdRng, start: Point) -> (p: Point)
        requires
            small_enough(*self, start),
            exists|x: int, y: int| is_end_candidate(*self, start, x, y),
        ensures
            is_end_for(*self, start, p),
    {
        let actual = self.enlarged(1, 1);
        let w = actual.width() as i32;
        let h = actual.height() as i32;
        let mut candidates: Vec<Point> = Vec::new();
        let mut x: i64 = -(w as i64);
        while x <= w as i64
            invariant
                actual == end_area(*self),
                small_enough(*self, start),
                w == actual.spec_width(),
                h == actual.spec_height(),
                -w <= x <= w + 1,
                forall|k: int|
                    0 <= k < candidates@.len() ==> is_end_for(*self, start, #[trigger] candidates@[k]),
                (exists|a: int, b: int| a < x && is_end_candidate(*self, start, a, b))
                    ==> candidates@.len() > 0,
            decreases w + 1 - x,
        {
            let mut y: i64 = -(h as i64);
            while y <= h as i64
                invariant
                    actual == end_area(*self),
                    small_enough(*self, start),
                    w == actual.spec_width(),
                    h == actual.spec_height(),
                    -w <= x <= w,
                    -h <= y <= h + 1,
                    forall|k: int|
                        0 <= k < candidates@.len() ==> is_end_for(
                            *self,
                            start,
                            #[trigger] candidates@[k],
                        ),
                    (exists|a: int, b: int| a < x && is_end_candidate(*self, start, a, b))
                        ==> candidates@.len() > 0,
                    (exists|b: int| b < y && is_end_candidate(*self, start, x as int, b))
                        ==> candidates@.len() > 0,
                decreases h + 1 - y,
            {
                let end = start.translated(x as i32, y as i32);
                if end != start && (x == y || x == -y) && actual.contains(&end) {
                    candidates.push(end);
                    proof {
                        assert(is_end_candidate(*self, start, x as int, y as int));
                    }
                }
                proof {
                    if exists|b: int| b < y + 1 && is_end_candidate(*self, start, x as int, b) {
                        let b = choose|b: int| b < y + 1 && is_end_candidate(*self, start, x as int, b);
                        if b == y {
                            assert(candidates@.len() > 0);
                        }
                    }
                }
                y = y + 1;
            }
            proof {
                if exists|a: int, b: int| a < x + 1 && is_end_candidate(*self, start, a, b) {
                    let (a, b) = choose|a: int, b: int| a < x + 1 && is_end_candidate(*self, start, a, b);
                    if a == x {
                        assert(b < y);
                    }
                }
            }
            x = x + 1;
        }
        proof {
            let (a, b) = choose|a: int, b: int| is_end_candidate(*self, start, a, b);
            assert(a < x);
        }
        let i = random_in(rng, 0, candidates.len());
        candidates[i]
    }
    /// A region of `within` (which must not be empty) drawn at random: from a random point of
    /// `within` to a random end for it (see `random_end`), the two ordered by their column.
    pub fn random(rng: &mut StdRng, within: &Region) -> (r: Region)
        requires
            searchable(*within),
        ensures
            exists|start: Point, end: Point|
                #![trigger is_end_for(*within, start, end)]
                within.spec_contains(start) && is_end_for(*within, start, end) && r == (if start.0
                    > end.0 {
                    Region { start: end, end: start }
                } else {
                    Region { start: start, end: end }
                }),
    {
        let start = Point::random(rng, within);
        proof {
            lemma_diagonal_neighbor(*within, start);
        }
        let end = within.random_end(rng, start);
        Region::from(
            if start.0 > end.0 {
                (end, start)
            } else {
                (start, end)
            },
        )
    }

    /// A point of this region, which must not be empty, drawn at random.
    pub fn random_point(&self, rng: &mut StdRng) -> (p: Point)
        requires
            self.start.0 <= self.end.0,
            self.start.1 <= self.end.1,
        ensures
            self.spec_contains(p),
    {
        Point::random(rng, self)
    }

    /// A point of this region outside `except`, drawn at random among such points; there must
    /// be one.
    pub fn random_point_except(&self, rng: &mut StdRng, except: &Region) -> (p: Point)
        requires
            self.end.0 < usize::MAX,
            self.end.1 < usize::MAX,
            exists|q: Point| self.spec_contains(q) && !except.spec_contains(q),
        ensures
            self.spec_contains(p),
            !except.spec_contains(p),
    {
        let mut candidates: Vec<Point> = Vec::new();
        proof {
            let q = choose|q: Point| self.spec_contains(q) && !except.spec_contains(q);
        }
        let mut x: usize = self.start.x();
        while x <= self.end.x()
            invariant
                self.end.0 < usize::MAX,
                self.end.1 < usize::MAX,
                self.start.1 <= self.end.1,
                self.start.0 <= x <= self.end.0 + 1,
                forall|k: int|
                    0 <= k < candidates@.len() ==> self.spec_contains(#[trigger] candidates@[k])
                        && !except.spec_contains(candidates@[k]),
                (exists|q: Point| q.0 < x && self.spec_contains(q) && !except.spec_contains(q))
                    ==> candidates@.len() > 0,
            decreases self.end.0 + 1 - x,
        {
            let mut y: usize = self.start.y();
            while y <= self.end.y()
                invariant
                    self.end.0 < usize::MAX,
                    self.end.1 < usize::MAX,
                    self.start.1 <= self.end.1,
                    self.start.0 <= x <= self.end.0,
                    self.start.1 <= y <= self.end.1 + 1,
                    forall|k: int|
                        0 <= k < candidates@.len() ==> self.spec_contains(#[trigger] candidates@[k])
                            && !except.spec_contains(candidates@[k]),
                    (exists|q: Point| q.0 < x && self.spec_contains(q) && !except.spec_contains(q))
                        ==> candidates@.len() > 0,
                    (exists|q: Point|
                        q.0 == x && q.1 < y && self.spec_contains(q) && !except.spec_contains(q))
                        ==> candidates@.len() > 0,
                decreases self.end.1 + 1 - y,
            {
                let q = Point(x, y);
                if !except.contains(&q) {
                    candidates.push(q);
                }
                y = y + 1;
            }
            x = x + 1;
        }
        let i = random_in(rng, 0, candidates.len());
        candidates[i]
    }
}

} // verus!
