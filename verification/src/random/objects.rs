//! Shapes drawn at random.
use vstd::prelude::*;
use rand::rngs::StdRng;
use std::ops::Range;
use crate::geometry::point::Point;
use crate::geometry::region::Region;
use crate::graphics::scalar::Scalar;
use crate::graphics::shapes::{segment_anchor, LineSegment, Shape};
use crate::random::region::{is_end_for, lemma_diagonal_neighbor, searchable};
use crate::random::source::random_in;

verus! {

/// A region whose points can be drawn from and around: ends can be searched from each of its
/// points within `i32` (see `searchable`).
pub open spec fn drawable(region: Region) -> bool {
    searchable(region)
}

/// `s` is a polygon of `region` with as many sides as the range allows.
pub open spec fn is_random_polygon(s: Shape, region: Region, sides: Range<usize>) -> bool {
    s matches Shape::Polygon(start, lines) && region.spec_contains(start) && sides.start
        <= lines@.len() < sides.end && forall|i: int|
        0 <= i < lines@.len() ==> region.spec_contains(segment_anchor(#[trigger] lines@[i]))
}

/// `s` is a curve from `start` to a possible end (see `is_end_for`), or a line between two
/// points of `region`, `width` wide.
pub open spec fn is_random_curve(s: Shape, start: Point, region: Region, width: Scalar) -> bool {
    ||| s matches Shape::CurveInward(a, b, w) && a == start && is_end_for(region, start, b) && w
        == width
    ||| s matches Shape::CurveOutward(a, b, w) && a == start && is_end_for(region, start, b) && w
        == width
    ||| s matches Shape::Line(a, b, w) && region.spec_contains(a) && region.spec_contains(b) && w
        == width
}

/// `s` is one of the shapes drawn from `start` in `region`: a polygon of the region, a big
/// circle, a small circle or a dot at `start`, or a curve or line (see `is_random_curve`).
pub open spec fn is_random_shape(
    s: Shape,
    start: Point,
    region: Region,
    width: Scalar,
    sides: Range<usize>,
) -> bool {
    ||| is_random_polygon(s, region, sides)
    ||| s == Shape::BigCircle(start)
    ||| s == Shape::SmallCircle(start)
    ||| s == Shape::Dot(start)
    ||| is_random_curve(s, start, region, width)
}

/// `s` is the shape of kind `kind` drawn from `start` in `region`: 1, a polygon of the
/// region; 2, a big circle at `start`; 3, a small circle at `start`; 4, a dot at `start`;
/// 5, a curve inward from `start` to a possible end; 6, a curve outward likewise; 7, a line
/// between two points of the region.
pub open spec fn is_shape_of_kind(
    s: Shape,
    kind: usize,
    start: Point,
    region: Region,
    width: Scalar,
    sides: Range<usize>,
) -> bool {
    if kind == 1 {
        is_random_polygon(s, region, sides)
    } else if kind == 2 {
        s == Shape::BigCircle(start)
    } else if kind == 3 {
        s == Shape::SmallCircle(start)
    } else if kind == 4 {
        s == Shape::Dot(start)
    } else if kind == 5 {
        s matches Shape::CurveInward(a, b, w) && a == start && is_end_for(region, start, b) && w
            == width
    } else if kind == 6 {
        s matches Shape::CurveOutward(a, b, w) && a == start && is_end_for(region, start, b) && w
            == width
    } else if kind == 7 {
        s matches Shape::Line(a, b, w) && region.spec_contains(a) && region.spec_contains(b) && w
            == width
    } else {
        false
    }
}

impl Shape {
    /// A side ending at `end`, of a kind drawn at random: straight, curving in or out.
    pub fn random_line_segment(rng: &mut StdRng, end: Point) -> (s: LineSegment)
        ensures
            segment_anchor(s) == end,
    {
        let choice = random_in(rng, 1, 4);
        if choice == 1 {
            LineSegment::Straight(end)
        } else if choice == 2 {
            LineSegment::InwardCurve(end)
        } else {
            LineSegment::OutwardCurve(end)
        }
    }

    /// A polygon of `region` with a random number of sides in `vertices_range`, from a random
    /// point through random points.
    pub fn random_polygon(rng: &mut StdRng, region: &Region, vertices_range: Range<usize>) -> (s:
        Shape)
        requires
            drawable(*region),
            vertices_range.start < vertices_range.end,
        ensures
            is_random_polygon(s, *region, vertices_range),
    {
        let number_of_anchors = random_in(rng, vertices_range.start, vertices_range.end);
        let start = Point::random(rng, region);
        let mut lines: Vec<LineSegment> = Vec::new();
        let mut i: usize = 0;
        while i < number_of_anchors
            invariant
                drawable(*region),
                i <= number_of_anchors,
                lines@.len() == i,
                forall|k: int|
                    0 <= k < lines@.len() ==> region.spec_contains(segment_anchor(#[trigger] lines@[k])),
            decreases number_of_anchors - i,
        {
            let next_anchor = Point::random(rng, region);
            lines.push(Shape::random_line_segment(rng, next_anchor));
            i = i + 1;
        }
        Shape::Polygon(start, lines)
    }

    /// The shape of kind `kind`, from 1 to 7, drawn from `start`, which must lie in `region`
    /// (see `is_shape_of_kind`): the polygon, the curves' ends and the line's points are
    /// drawn at random.
    pub fn random_of_kind(
        rng: &mut StdRng,
        kind: usize,
        start: Point,
        region: &Region,
        line_width: Scalar,
        polygon_vertices_range: Range<usize>,
    ) -> (s: Shape)
        requires
            1 <= kind <= 7,
            drawable(*region),
            region.spec_contains(start),
            polygon_vertices_range.start < polygon_vertices_range.end,
        ensures
            is_shape_of_kind(s, kind, start, *region, line_width, polygon_vertices_range),
    {
        proof {
            lemma_diagonal_neighbor(*region, start);
        }
        if kind == 1 {
            Shape::random_polygon(rng, region, polygon_vertices_range)
        } else if kind == 2 {
            Shape::BigCircle(start)
        } else if kind == 3 {
            Shape::SmallCircle(start)
        } else if kind == 4 {
            Shape::Dot(start)
        } else if kind == 5 {
            Shape::CurveInward(start, region.random_end(rng, start), line_width)
        } else if kind == 6 {
            Shape::CurveOutward(start, region.random_end(rng, start), line_width)
        } else {
            let a = Point::random(rng, region);
            let b = Point::random(rng, region);
            Shape::Line(a, b, line_width)
        }
    }

    /// A shape of a kind drawn at random among the seven, from `start`, which must lie in
    /// `region` (see `random_of_kind`).
    pub fn random_starting_at(
        rng: &mut StdRng,
        start: Point,
        region: &Region,
        line_width: Scalar,
        polygon_vertices_range: Range<usize>,
    ) -> (s: Shape)
        requires
            drawable(*region),
            region.spec_contains(start),
            polygon_vertices_range.start < polygon_vertices_range.end,
        ensures
            exists|kind: usize|
                1 <= kind <= 7 && #[trigger] is_shape_of_kind(
                    s,
                    kind,
                    start,
                    *region,
                    line_width,
                    polygon_vertices_range,
                ),
            is_random_shape(s, start, *region, line_width, polygon_vertices_range),
    {
        let kind = random_in(rng, 1, 8);
        Shape::random_of_kind(rng, kind, start, region, line_width, polygon_vertices_range)
    }

    /// A shape of a kind drawn at random from a random point of `region` (see
    /// `random_starting_at`).
    pub fn random(
        rng: &mut StdRng,
        region: &Region,
        line_width: Scalar,
        polygon_vertices_range: Range<usize>,
    ) -> (s: Shape)
        requires
            drawable(*region),
            polygon_vertices_range.start < polygon_vertices_range.end,
        ensures
            exists|start: Point|
                region.spec_contains(start) && #[trigger] is_random_shape(
                    s,
                    start,
                    *region,
                    line_width,
                    polygon_vertices_range,
                ),
    {
        let start = Point::random(rng, region);
        Shape::random_starting_at(rng, start, region, line_width, polygon_vertices_range)
    }

    /// A curve or a line drawn at random in `region` (see `is_random_curve`).
    pub fn random_curve_within(rng: &mut StdRng, region: &Region, line_width: Scalar) -> (s: Shape)
        requires
            drawable(*region),
        ensures
            exists|start: Point|
                region.spec_contains(start) && #[trigger] is_random_curve(
                    s,
                    start,
                    *region,
                    line_width,
                ),
    {
        let start = region.random_point(rng);
        proof {
            lemma_diagonal_neighbor(*region, start);
        }
        let choice = random_in(rng, 1, 4);
        let s = if choice == 1 {
            Shape::CurveInward(start, region.random_end(rng, start), line_width)
        } else if choice == 2 {
            Shape::CurveOutward(start, region.random_end(rng, start), line_width)
        } else {
            let a = Point::random(rng, region);
            let b = Point::random(rng, region);
            Shape::Line(a, b, line_width)
        };
        assert(is_random_curve(s, start, *region, line_width));
        s
    }
}

} // verus!
