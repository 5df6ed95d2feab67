//! The shapes that can be drawn on the grid, and their geometry.
use vstd::prelude::*;
use crate::geometry::point::Point;
use crate::geometry::region::{saturating_offset_exec, Region};
use crate::graphics::objects::Object;
use crate::graphics::scalar::Scalar;

verus! {

/// A side of a polygon, ending at the given point.
#[derive(Debug, Clone, Copy, PartialEq, Eq, Structural)]
pub enum LineSegment {
    Straight(Point),
    InwardCurve(Point),
    OutwardCurve(Point),
}

/// A shape placed on the grid.
#[derive(Debug)]
pub enum Shape {
    Polygon(Point, Vec<LineSegment>),
    Line(Point, Point, Scalar),
    CurveOutward(Point, Point, Scalar),
    CurveInward(Point, Point, Scalar),
    SmallCircle(Point),
    BigDot(Point),
    Dot(Point),
    BigCircle(Point),
    Text(Point, String, Scalar),
    CenteredText(Point, String, Scalar),
    Rectangle(Point, Point),
    Image(Region, String),
    RawSVG(String),
    Component { at: Point, size: (usize, usize), objects: Box<Vec<Object>> },
}

/// The point a segment ends at.
pub open spec fn segment_anchor(s: LineSegment) -> Point {
    match s {
        LineSegment::Straight(p) => p,
        LineSegment::InwardCurve(p) => p,
        LineSegment::OutwardCurve(p) => p,
    }
}

/// The segment moved by `(dx, dy)`.
pub open spec fn segment_translated(s: LineSegment, dx: i32, dy: i32) -> LineSegment {
    match s {
        LineSegment::Straight(p) => LineSegment::Straight(p.spec_translated(dx, dy)),
        LineSegment::InwardCurve(p) => LineSegment::InwardCurve(p.spec_translated(dx, dy)),
        LineSegment::OutwardCurve(p) => LineSegment::OutwardCurve(p.spec_translated(dx, dy)),
    }
}

/// The region of a polygon after its first `lines.len()` sides: it starts as the start point,
/// and for each side becomes the region from the start to the side's end whenever it lies
/// inside that region.
pub open spec fn polygon_region(start: Point, lines: Seq<LineSegment>) -> Region
    decreases lines.len(),
{
    if lines.len() == 0 {
        Region { start, end: start }
    } else {
        let r = polygon_region(start, lines.drop_last());
        let candidate = Region { start, end: segment_anchor(lines.last()) };
        if r.spec_within(candidate) {
            candidate
        } else {
            r
        }
    }
}

/// The smaller of two coordinates.
pub open spec fn min_usize(a: usize, b: usize) -> usize {
    if a <= b {
        a
    } else {
        b
    }
}

/// The larger of two coordinates.
pub open spec fn max_usize(a: usize, b: usize) -> usize {
    if a >= b {
        a
    } else {
        b
    }
}

/// The box of a line before it is shrunk: its corners take the column of the start and the
/// row of the end as one corner's column, and the row of the start and the column of the end
/// as one corner's row (`(x1, y1, x2, y2) = (s.x, s.y, e.y, e.x)`).
pub open spec fn line_box(s: Point, e: Point) -> Region {
    let (x1, y1, x2, y2) = (s.0, s.1, e.1, e.0);
    Region {
        start: Point(min_usize(x1, x2), min_usize(y1, y2)),
        end: Point(max_usize(x1, x2), max_usize(y1, y2)),
    }
}

/// The region of a line: its box with the end moved back by one on each axis where the box
/// is more than one cell wide.
pub open spec fn line_region(s: Point, e: Point) -> Region {
    let b = line_box(s, e);
    b.spec_enlarged(
        if b.spec_width() > 1 {
            -1i32
        } else {
            0i32
        },
        if b.spec_height() > 1 {
            -1i32
        } else {
            0i32
        },
    )
}

impl Shape {
    /// Whether `region` is defined: raw SVG has no region, and the regions built on the way
    /// must be valid.
    pub open spec fn has_region(&self) -> bool {
        match *self {
            Shape::Line(s, e, _) | Shape::CurveOutward(s, e, _) | Shape::CurveInward(s, e, _) => line_box(
                s,
                e,
            ).valid(),
            Shape::Rectangle(s, e) => (Region { start: s, end: e }).valid() && (Region {
                start: s,
                end: e,
            }).spec_enlarged(-1i32, -1i32).valid(),
            Shape::Component { at, size, .. } => Region::can_size(at, size) && (Region {
                start: at,
                end: Region::sized_end(at, size),
            }).valid(),
            Shape::RawSVG(_) => false,
            _ => true,
        }
    }

    /// The region the shape occupies.
    pub open spec fn spec_region(&self) -> Region {
        match *self {
            Shape::Polygon(start, lines) => polygon_region(start, lines@),
            Shape::Line(s, e, _) | Shape::CurveOutward(s, e, _) | Shape::CurveInward(
                s,
                e,
                _,
            ) => line_region(s, e),
            Shape::Rectangle(s, e) => (Region { start: s, end: e }).spec_enlarged(-1i32, -1i32),
            Shape::Text(p, _, _) | Shape::CenteredText(p, _, _) | Shape::Dot(p) | Shape::BigDot(p)
            | Shape::SmallCircle(p) | Shape::BigCircle(p) => Region { start: p, end: p },
            Shape::Image(r, _) => r,
            Shape::Component { at, size, .. } => Region { start: at, end: Region::sized_end(at, size) },
            Shape::RawSVG(_) => Region { start: Point(0, 0), end: Point(0, 0) },
        }
    }

    /// The anchor point of the shape.
    pub open spec fn spec_position(&self) -> Point {
        match *self {
            Shape::Polygon(at, _) | Shape::Line(at, _, _) | Shape::CurveInward(at, _, _)
            | Shape::CurveOutward(at, _, _) | Shape::Rectangle(at, _) | Shape::Text(at, _, _)
            | Shape::CenteredText(at, _, _) | Shape::Dot(at) | Shape::BigDot(at) | Shape::BigCircle(
                at,
            ) | Shape::SmallCircle(at) => at,
            Shape::Component { at, .. } => at,
            Shape::Image(r, _) => r.start,
            Shape::RawSVG(_) => Point(0, 0),
        }
    }

    /// Moving by `(dx, dy)` is defined: raw SVG cannot move, and every point must stay
    /// within `i32`.
    pub open spec fn can_translate(&self, dx: i32, dy: i32) -> bool {
        match *self {
            Shape::Polygon(start, lines) => start.can_translate(dx, dy) && forall|i: int|
                0 <= i < lines@.len() ==> #[trigger] segment_anchor(lines@[i]).can_translate(
                    dx,
                    dy,
                ),
            Shape::Line(s, e, _) | Shape::CurveInward(s, e, _) | Shape::CurveOutward(s, e, _)
            | Shape::Rectangle(s, e) => s.can_translate(dx, dy) && e.can_translate(dx, dy),
            Shape::Text(p, _, _) | Shape::CenteredText(p, _, _) | Shape::Dot(p) | Shape::BigDot(p)
            | Shape::BigCircle(p) | Shape::SmallCircle(p) => p.can_translate(dx, dy),
            Shape::Image(r, _) => r.can_translate(dx, dy),
            Shape::Component { at, .. } => at.can_translate(dx, dy),
            Shape::RawSVG(_) => false,
        }
    }

    /// This shape and `other` are the same but for their points, which `other` has moved by
    /// `(dx, dy)`.
    pub open spec fn moved_to(&self, other: Shape, dx: i32, dy: i32) -> bool {
        match (*self, other) {
            (Shape::Polygon(s, l), Shape::Polygon(s2, l2)) => s2 == s.spec_translated(dx, dy)
                && l2@ == l@.map_values(|seg: LineSegment| segment_translated(seg, dx, dy)),
            (Shape::Line(s, e, w), Shape::Line(s2, e2, w2)) => s2 == s.spec_translated(dx, dy)
                && e2 == e.spec_translated(dx, dy) && w2 == w,
            (Shape::CurveOutward(s, e, w), Shape::CurveOutward(s2, e2, w2)) => s2
                == s.spec_translated(dx, dy) && e2 == e.spec_translated(dx, dy) && w2 == w,
            (Shape::CurveInward(s, e, w), Shape::CurveInward(s2, e2, w2)) => s2
                == s.spec_translated(dx, dy) && e2 == e.spec_translated(dx, dy) && w2 == w,
            (Shape::Rectangle(s, e), Shape::Rectangle(s2, e2)) => s2 == s.spec_translated(dx, dy)
                && e2 == e.spec_translated(dx, dy),
            (Shape::SmallCircle(p), Shape::SmallCircle(p2)) => p2 == p.spec_translated(dx, dy),
            (Shape::BigDot(p), Shape::BigDot(p2)) => p2 == p.spec_translated(dx, dy),
            (Shape::Dot(p), Shape::Dot(p2)) => p2 == p.spec_translated(dx, dy),
            (Shape::BigCircle(p), Shape::BigCircle(p2)) => p2 == p.spec_translated(dx, dy),
            (Shape::Text(p, t, sz), Shape::Text(p2, t2, sz2)) => p2 == p.spec_translated(dx, dy)
                && t2 == t && sz2 == sz,
            (Shape::CenteredText(p, t, sz), Shape::CenteredText(p2, t2, sz2)) => p2
                == p.spec_translated(dx, dy) && t2 == t && sz2 == sz,
            (Shape::Image(r, src), Shape::Image(r2, src2)) => r2 == r.spec_translated(dx, dy)
                && src2 == src,
            (
                Shape::Component { at, size, objects },
                Shape::Component { at: at2, size: size2, objects: objects2 },
            ) => at2 == at.spec_translated(dx, dy) && size2 == size && objects2 == objects,
            _ => false,
        }
    }

    /// Whether the shape can be filled: lines and curves cannot.
    pub open spec fn spec_fillable(&self) -> bool {
        !(*self is Line || *self is CurveInward || *self is CurveOutward)
    }
}

fn translated_segment(s: LineSegment, dx: i32, dy: i32) -> (r: LineSegment)
    requires
        segment_anchor(s).can_translate(dx, dy),
    ensures
        r == segment_translated(s, dx, dy),
{
    match s {
        LineSegment::Straight(p) => LineSegment::Straight(p.translated(dx, dy)),
        LineSegment::InwardCurve(p) => LineSegment::InwardCurve(p.translated(dx, dy)),
        LineSegment::OutwardCurve(p) => LineSegment::OutwardCurve(p.translated(dx, dy)),
    }
}

impl Shape {
    /// The shape with every point moved by `(dx, dy)` (see `Point::translated`; an image's
    /// region moves as `Region::translated` does).
    pub fn translated(self, dx: i32, dy: i32) -> (r: Shape)
        requires
            self.can_translate(dx, dy),
        ensures
            self.moved_to(r, dx, dy),
    {
        match self {
            Shape::Polygon(start, lines) => {
                let mut lines = lines;
                let ghost original = lines@;
                let mut i: usize = 0;
                while i < lines.len()
                    invariant
                        i <= lines@.len(),
                        lines@.len() == original.len(),
                        forall|j: int|
                            0 <= j < original.len() ==> #[trigger] segment_anchor(
                                original[j],
                            ).can_translate(dx, dy),
                        forall|j: int|
                            0 <= j < i ==> lines@[j] == segment_translated(original[j], dx, dy),
                        forall|j: int| i <= j < original.len() ==> lines@[j] == original[j],
                    decreases original.len() - i,
                {
                    let moved = translated_segment(lines[i], dx, dy);
                    lines.set(i, moved);
                    i = i + 1;
                }
                let r = Shape::Polygon(start.translated(dx, dy), lines);
                proof {
                    assert(lines@ =~= original.map_values(
                        |seg: LineSegment| segment_translated(seg, dx, dy),
                    ));
                }
                r
            },
            Shape::Line(s, e, w) => Shape::Line(s.translated(dx, dy), e.translated(dx, dy), w),
            Shape::CurveInward(s, e, w) => Shape::CurveInward(
                s.translated(dx, dy),
                e.translated(dx, dy),
                w,
            ),
            Shape::CurveOutward(s, e, w) => Shape::CurveOutward(
                s.translated(dx, dy),
                e.translated(dx, dy),
                w,
            ),
            Shape::Rectangle(s, e) => Shape::Rectangle(s.translated(dx, dy), e.translated(dx, dy)),
            Shape::Text(p, t, sz) => Shape::Text(p.translated(dx, dy), t, sz),
            Shape::CenteredText(p, t, sz) => Shape::CenteredText(p.translated(dx, dy), t, sz),
            Shape::Dot(p) => Shape::Dot(p.translated(dx, dy)),
            Shape::BigDot(p) => Shape::BigDot(p.translated(dx, dy)),
            Shape::BigCircle(p) => Shape::BigCircle(p.translated(dx, dy)),
            Shape::SmallCircle(p) => Shape::SmallCircle(p.translated(dx, dy)),
            Shape::Image(r, src) => Shape::Image(r.translated(dx, dy), src),
            Shape::Component { at, size, objects } => Shape::Component {
                at: at.translated(dx, dy),
                size,
                objects,
            },
            Shape::RawSVG(s) => Shape::RawSVG(s),
        }
    }

    /// Moves every point of the shape by `(dx, dy)` (see `translated`).
    pub fn translate(&mut self, dx: i32, dy: i32)
        requires
            old(self).can_translate(dx, dy),
        ensures
            old(self).moved_to(*final(self), dx, dy),
    {
        let mut current = Shape::Dot(Point(0, 0));
        std::mem::swap(&mut current, self);
        *self = current.translated(dx, dy);
    }

    /// Moves the shape by `delta`.
    pub fn translate_with(&mut self, delta: (i32, i32))
        requires
            old(self).can_translate(delta.0, delta.1),
        ensures
            old(self).moved_to(*final(self), delta.0, delta.1),
    {
        self.translate(delta.0, delta.1)
    }

    /// The anchor point of the shape; raw SVG has none.
    pub fn position(&self) -> (p: Point)
        requires
            !(*self is RawSVG),
        ensures
            p == self.spec_position(),
    {
        match self {
            Shape::Polygon(at, ..) | Shape::Line(at, ..) | Shape::CurveInward(at, ..)
            | Shape::CurveOutward(at, ..) | Shape::Rectangle(at, ..) | Shape::Text(at, ..)
            | Shape::CenteredText(at, ..) | Shape::Dot(at) | Shape::BigDot(at) | Shape::BigCircle(
                at,
            ) | Shape::SmallCircle(at) => *at,
            Shape::Component { at, .. } => *at,
            Shape::Image(r, ..) => r.start,
            Shape::RawSVG(_) => Point(0, 0),
        }
    }

    /// Whether the shape's region is defined (see `has_region`), which `region` needs.
    pub fn region_is_defined(&self) -> (b: bool)
        ensures
            b == self.has_region(),
    {
        match self {
            Shape::Line(s, e, _) | Shape::CurveInward(s, e, _) | Shape::CurveOutward(s, e, _) => {
                let (x1, y1, x2, y2) = (s.x(), s.y(), e.y(), e.x());
                let b = Region {
                    start: Point(
                        if x1 <= x2 {
                            x1
                        } else {
                            x2
                        },
                        if y1 <= y2 {
                            y1
                        } else {
                            y2
                        },
                    ),
                    end: Point(
                        if x1 >= x2 {
                            x1
                        } else {
                            x2
                        },
                        if y1 >= y2 {
                            y1
                        } else {
                            y2
                        },
                    ),
                };
                b.ensure_valid().is_ok()
            },
            Shape::Rectangle(s, e) => {
                let r = Region { start: *s, end: *e };
                let shrunk = Region {
                    start: *s,
                    end: Point(saturating_offset_exec(e.x(), -1), saturating_offset_exec(e.y(), -1)),
                };
                r.ensure_valid().is_ok() && shrunk.ensure_valid().is_ok()
            },
            Shape::Component { at, size, .. } => {
                let sx = size.0 as i32;
                let sy = size.1 as i32;
                if sx == i32::MIN || sy == i32::MIN {
                    return false;
                }
                let wx = (sx - 1) as usize;
                let wy = (sy - 1) as usize;
                match (at.x().checked_add(wx), at.y().checked_add(wy)) {
                    (Some(ex), Some(ey)) => {
                        let r = Region { start: *at, end: Point(ex, ey) };
                        r.ensure_valid().is_ok()
                    },
                    _ => false,
                }
            },
            Shape::RawSVG(_) => false,
            _ => true,
        }
    }

    /// The region the shape occupies (see `spec_region`).
    pub fn region(&self) -> (r: Region)
        requires
            self.has_region(),
        ensures
            r == self.spec_region(),
    {
        match self {
            Shape::Polygon(start, lines) => {
                let mut region = Region { start: *start, end: *start };
                let mut i: usize = 0;
                while i < lines.len()
                    invariant
                        i <= lines@.len(),
                        region == polygon_region(*start, lines@.take(i as int)),
                    decreases lines@.len() - i,
                {
                    let anchor = match lines[i] {
                        LineSegment::InwardCurve(a) | LineSegment::OutwardCurve(a)
                        | LineSegment::Straight(a) => a,
                    };
                    let candidate = Region { start: *start, end: anchor };
                    region = region.max(&candidate);
                    proof {
                        assert(lines@.take(i + 1).drop_last() =~= lines@.take(i as int));
                    }
                    i = i + 1;
                }
                proof {
                    assert(lines@.take(lines@.len() as int) =~= lines@);
                }
                region
            },
            Shape::Line(s, e, _) | Shape::CurveInward(s, e, _) | Shape::CurveOutward(s, e, _) => {
                let (x1, y1, x2, y2) = (s.x(), s.y(), e.y(), e.x());
                let b = Region {
                    start: Point(
                        if x1 <= x2 {
                            x1
                        } else {
                            x2
                        },
                        if y1 <= y2 {
                            y1
                        } else {
                            y2
                        },
                    ),
                    end: Point(
                        if x1 >= x2 {
                            x1
                        } else {
                            x2
                        },
                        if y1 >= y2 {
                            y1
                        } else {
                            y2
                        },
                    ),
                };
                let dx: i32 = if b.width() > 1 {
                    -1
                } else {
                    0
                };
                let dy: i32 = if b.height() > 1 {
                    -1
                } else {
                    0
                };
                b.enlarged(dx, dy)
            },
            Shape::Rectangle(s, e) => {
                let r = Region { start: *s, end: *e };
                r.enlarged(-1, -1)
            },
            Shape::Text(p, ..) | Shape::CenteredText(p, ..) | Shape::Dot(p) | Shape::BigDot(p)
            | Shape::SmallCircle(p) | Shape::BigCircle(p) => p.region(),
            Shape::Image(r, ..) => *r,
            Shape::Component { at, size, .. } => {
                let end = at.translated_by(Point(size.0, size.1).translated(-1, -1));
                Region { start: *at, end }
            },
            Shape::RawSVG(_) => Region { start: Point(0, 0), end: Point(0, 0) },
        }
    }

    /// Moves the shape so that its region starts at `(x, y)`.
    pub fn teleport(&mut self, x: i32, y: i32)
        requires
            old(self).has_region(),
            i32::MIN <= x - (old(self).spec_region().start.0 as i32) <= i32::MAX,
            i32::MIN <= y - (old(self).spec_region().start.1 as i32) <= i32::MAX,
            old(self).can_translate(
                (x - (old(self).spec_region().start.0 as i32)) as i32,
                (y - (old(self).spec_region().start.1 as i32)) as i32,
            ),
        ensures
            old(self).moved_to(
                *final(self),
                (x - (old(self).spec_region().start.0 as i32)) as i32,
                (y - (old(self).spec_region().start.1 as i32)) as i32,
            ),
    {
        let start = self.region().start;
        let delta_x = x - (start.x() as i32);
        let delta_y = y - (start.y() as i32);
        self.translate(delta_x, delta_y);
    }

    /// Moves the shape so that its region starts at `position`.
    pub fn teleport_with(&mut self, position: (i32, i32))
        requires
            old(self).has_region(),
            i32::MIN <= position.0 - (old(self).spec_region().start.0 as i32) <= i32::MAX,
            i32::MIN <= position.1 - (old(self).spec_region().start.1 as i32) <= i32::MAX,
            old(self).can_translate(
                (position.0 - (old(self).spec_region().start.0 as i32)) as i32,
                (position.1 - (old(self).spec_region().start.1 as i32)) as i32,
            ),
        ensures
            old(self).moved_to(
                *final(self),
                (position.0 - (old(self).spec_region().start.0 as i32)) as i32,
                (position.1 - (old(self).spec_region().start.1 as i32)) as i32,
            ),
    {
        self.teleport(position.0, position.1)
    }

    /// Whether the shape can be filled: lines and curves cannot.
    pub fn fillable(&self) -> (r: bool)
        ensures
            r == self.spec_fillable(),
    {
        match self {
            Shape::Line(..) | Shape::CurveInward(..) | Shape::CurveOutward(..) => false,
            _ => true,
        }
    }

    /// Whether the shape can be hatched: it must be fillable and not a dot.
    pub fn hatchable(&self) -> (r: bool)
        ensures
            r == (self.spec_fillable() && !(*self is Dot)),
    {
        self.fillable() && match self {
            Shape::Dot(..) => false,
            _ => true,
        }
    }

    /// Whether `point` is one of the two ends of this line.
    pub fn meets_endpoint_of_line(&self, point: Point) -> (r: bool)
        requires
            *self is Line,
        ensures
            match *self {
                Shape::Line(s, e, _) => r == (s == point || e == point),
                _ => false,
            },
    {
        match self {
            Shape::Line(s, e, _) => *s == point || *e == point,
            _ => false,
        }
    }
}

/// A coordinate taken as an `isize`, as `c as isize` does.
pub open spec fn coord(c: usize) -> int {
    (c as isize) as int
}

/// `v` fits in an `isize`.
pub open spec fn fits(v: int) -> bool {
    isize::MIN <= v <= isize::MAX
}

/// The coefficients `(a, b, c)` of the line through `s` and `e`: `a x + b y + c = 0`.
pub open spec fn line_params(s: Point, e: Point) -> (int, int, int) {
    (
        coord(e.1) - coord(s.1),
        coord(s.0) - coord(e.0),
        coord(e.0) * coord(s.1) - coord(s.0) * coord(e.1),
    )
}

/// Computing `line_params` stays within `isize`.
pub open spec fn params_fit(s: Point, e: Point) -> bool {
    &&& fits(coord(e.1) - coord(s.1))
    &&& fits(coord(s.0) - coord(e.0))
    &&& fits(coord(e.0) * coord(s.1))
    &&& fits(coord(s.0) * coord(e.1))
    &&& fits(coord(e.0) * coord(s.1) - coord(s.0) * coord(e.1))
}

/// Which side of the line through `s` and `e` the point `p` lies on, and how far, scaled:
/// `a x + b y + c`.
pub open spec fn side(p: Point, s: Point, e: Point) -> int {
    let (a, b, c) = line_params(s, e);
    a * coord(p.0) + b * coord(p.1) + c
}

/// Computing `side` stays within `isize`.
pub open spec fn side_fits(p: Point, s: Point, e: Point) -> bool {
    let (a, b, c) = line_params(s, e);
    &&& params_fit(s, e)
    &&& fits(a * coord(p.0))
    &&& fits(b * coord(p.1))
    &&& fits(a * coord(p.0) + b * coord(p.1))
    &&& fits(a * coord(p.0) + b * coord(p.1) + c)
}

/// Both points lie strictly on the same side of the line through `s` and `e`.
pub open spec fn same_side(p1: Point, p2: Point, s: Point, e: Point) -> bool {
    let d1 = side(p1, s, e);
    let d2 = side(p2, s, e);
    d1 != 0 && d2 != 0 && ((d1 > 0) == (d2 > 0))
}

/// Whether segment `(s1, e1)` crosses segment `(s2, e2)`: neither has both ends strictly on
/// one side of the other's line, and the lines are not parallel.
pub open spec fn segments_intersect(s1: Point, e1: Point, s2: Point, e2: Point) -> bool {
    let (a1, b1, _) = line_params(s1, e1);
    let (a2, b2, _) = line_params(s2, e2);
    !same_side(s2, e2, s1, e1) && !same_side(s1, e1, s2, e2) && a1 * b2 != a2 * b1
}

/// The arithmetic of `segments_intersect` stays within `isize` on the path it takes.
pub open spec fn intersection_fits(s1: Point, e1: Point, s2: Point, e2: Point) -> bool {
    let (a1, b1, _) = line_params(s1, e1);
    let (a2, b2, _) = line_params(s2, e2);
    &&& side_fits(s2, s1, e1)
    &&& side_fits(e2, s1, e1)
    &&& !same_side(s2, e2, s1, e1) ==> side_fits(s1, s2, e2) && side_fits(e1, s2, e2)
    &&& !same_side(s2, e2, s1, e1) && !same_side(s1, e1, s2, e2) ==> fits(a1 * b2) && fits(
        a2 * b1,
    )
}

fn params(s: Point, e: Point) -> (r: (isize, isize, isize))
    requires
        params_fit(s, e),
    ensures
        r.0 as int == line_params(s, e).0,
        r.1 as int == line_params(s, e).1,
        r.2 as int == line_params(s, e).2,
{
    let (sx, sy) = (s.0 as isize, s.1 as isize);
    let (ex, ey) = (e.0 as isize, e.1 as isize);
    let a = ey - sy;
    let b = sx - ex;
    let c = (ex * sy) - (sx * ey);
    (a, b, c)
}

fn side_of(p: Point, s: Point, e: Point) -> (d: isize)
    requires
        side_fits(p, s, e),
    ensures
        d as int == side(p, s, e),
{
    let (x, y) = (p.0 as isize, p.1 as isize);
    let (a, b, c) = params(s, e);
    (a * x) + (b * y) + c
}

fn on_same_side(p1: Point, p2: Point, s: Point, e: Point) -> (r: bool)
    requires
        side_fits(p1, s, e),
        side_fits(p2, s, e),
    ensures
        r == same_side(p1, p2, s, e),
{
    let d1 = side_of(p1, s, e);
    let d2 = side_of(p2, s, e);
    if d1 == 0 || d2 == 0 {
        return false;
    }
    (d1 > 0) == (d2 > 0)
}

impl Shape {
    /// Whether this line crosses `line` (see `segments_intersect`); both must be lines.
    pub fn intersects_with(&self, line: Shape) -> (r: bool)
        requires
            *self is Line,
            line is Line,
            match (*self, line) {
                (Shape::Line(s1, e1, _), Shape::Line(s2, e2, _)) => intersection_fits(
                    s1,
                    e1,
                    s2,
                    e2,
                ),
                _ => false,
            },
        ensures
            match (*self, line) {
                (Shape::Line(s1, e1, _), Shape::Line(s2, e2, _)) => r == segments_intersect(
                    s1,
                    e1,
                    s2,
                    e2,
                ),
                _ => false,
            },
    {
        match (self, &line) {
            (Shape::Line(s1, e1, _), Shape::Line(s2, e2, _)) => {
                if on_same_side(*s2, *e2, *s1, *e1) {
                    return false;
                }
                if on_same_side(*s1, *e1, *s2, *e2) {
                    return false;
                }
                let (a1, b1, _) = params(*s1, *e1);
                let (a2, b2, _) = params(*s2, *e2);
                (a1 * b2) != (a2 * b1)
            },
            _ => false,
        }
    }
}

impl Region {
    /// The rectangle shape covering this region.
    pub fn rectangle(&self) -> (s: Shape)
        ensures
            s == Shape::Rectangle(self.start, self.end),
    {
        Shape::Rectangle(self.start, self.end)
    }
}

} // verus!
