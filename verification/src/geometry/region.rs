//! Rectangular regions of the grid, both corners included.
use vstd::prelude::*;
use crate::geometry::axis::Axis;
use crate::geometry::point::{can_shift, point_text, shifted, Point};
use crate::text::push_char;

verus! {

/// A rectangle of grid points from `start` (top-left) to `end` (bottom-right), both included.
#[derive(Debug, Clone, Copy, PartialEq, Eq, Structural)]
pub struct Region {
    pub start: Point,
    pub end: Point,
}

/// Why a region was refused.
#[derive(Debug, Clone, Copy, PartialEq, Eq, Structural)]
pub enum RegionError {
    /// The region has no point.
    Empty(Region),
    /// The start lies after the end on some axis.
    StartAfterEnd(Region),
    /// A coordinate is within 10 of `usize::MAX`.
    NearMaximum(Region),
}

/// A point is within `usize::MAX - 10` on both axes.
pub open spec fn far_from_maximum(p: Point) -> bool {
    p.0 < usize::MAX - 10 && p.1 < usize::MAX - 10
}

/// The text of a region: `[start,end]`.
pub open spec fn region_text(r: Region) -> Seq<char> {
    seq!['['] + point_text(r.start) + seq![','] + point_text(r.end) + seq![']']
}

/// The points `(x, y)` for `x` from `sx` to `ex`.
pub open spec fn row(sx: usize, ex: usize, y: usize) -> Seq<Point> {
    Seq::new((ex - sx + 1) as nat, |i: int| Point((sx + i) as usize, y))
}

/// The points `(x, y)` for `y` from `sy` to `ey`.
pub open spec fn column(x: usize, sy: usize, ey: usize) -> Seq<Point> {
    Seq::new((ey - sy + 1) as nat, |i: int| Point(x, (sy + i) as usize))
}

/// A sequence without its first element, or the empty sequence.
pub open spec fn tail(s: Seq<Point>) -> Seq<Point> {
    if s.len() == 0 {
        s
    } else {
        s.drop_first()
    }
}

impl Default for Region {
    fn default() -> (r: Region)
        ensures
            r == (Region { start: Point(0, 0), end: Point(0, 0) }),
    {
        Region { start: Point(0, 0), end: Point(0, 0) }
    }
}

impl Region {
    /// The outcome of `ensure_valid`.
    pub open spec fn validated(self) -> Result<Region, RegionError> {
        if self.start.0 > self.end.0 || self.start.1 > self.end.1 {
            Err(RegionError::StartAfterEnd(self))
        } else if !far_from_maximum(self.start) || !far_from_maximum(self.end) {
            Err(RegionError::NearMaximum(self))
        } else {
            Ok(self)
        }
    }

    /// The start is not after the end, and no coordinate is within 10 of `usize::MAX`.
    pub open spec fn valid(self) -> bool {
        self.validated() is Ok
    }

    /// The number of columns: 0 when the end lies before the start.
    pub open spec fn spec_width(self) -> int {
        if self.end.0 < self.start.0 {
            0
        } else {
            self.end.0 - self.start.0 + 1
        }
    }

    /// The number of rows: 0 when the end lies before the start.
    pub open spec fn spec_height(self) -> int {
        if self.end.1 < self.start.1 {
            0
        } else {
            self.end.1 - self.start.1 + 1
        }
    }

    /// Whether `p` lies in the region, borders included.
    pub open spec fn spec_contains(self, p: Point) -> bool {
        self.start.0 <= p.0 <= self.end.0 && self.start.1 <= p.1 <= self.end.1
    }

    /// Whether this region lies inside `other`.
    pub open spec fn spec_within(self, other: Region) -> bool {
        self.start.0 >= other.start.0 && self.start.1 >= other.start.1 && self.end.0
            <= other.end.0 && self.end.1 <= other.end.1
    }

    /// The smallest region holding both regions.
    pub open spec fn spec_merge(self, other: Region) -> Region {
        Region {
            start: Point(
                if self.start.0 <= other.start.0 {
                    self.start.0
                } else {
                    other.start.0
                },
                if self.start.1 <= other.start.1 {
                    self.start.1
                } else {
                    other.start.1
                },
            ),
            end: Point(
                if self.end.0 >= other.end.0 {
                    self.end.0
                } else {
                    other.end.0
                },
                if self.end.1 >= other.end.1 {
                    self.end.1
                } else {
                    other.end.1
                },
            ),
        }
    }

    /// The rows from `sy` to `y`, each from `start.0` to `end.0`, top to bottom.
    pub open spec fn rows_through(self, y: int) -> Seq<Point>
        decreases y - self.start.1 + 1,
    {
        if y < self.start.1 {
            Seq::<Point>::empty()
        } else {
            self.rows_through(y - 1) + row(self.start.0, self.end.0, y as usize)
        }
    }

    /// The points that iterating the region yields: row by row from top to bottom, left to
    /// right in each row. When the start lies right of the end, each row after the first
    /// yields its starting point only.
    pub open spec fn spec_points(self) -> Seq<Point> {
        if self.start.0 <= self.end.0 {
            self.rows_through(self.end.1 as int)
        } else if self.start.1 < self.end.1 {
            column(self.start.0, (self.start.1 + 1) as usize, self.end.1)
        } else {
            Seq::<Point>::empty()
        }
    }

    /// The points of row `y` that iteration yields: the row from the start's column to the
    /// end's, or the start's column alone when the start lies right of the end.
    pub open spec fn line_of(self, y: usize) -> Seq<Point> {
        if self.start.0 <= self.end.0 {
            row(self.start.0, self.end.0, y)
        } else {
            seq![Point(self.start.0, y)]
        }
    }

    /// The points that iteration yields for rows `y` to the last, top to bottom.
    pub open spec fn rows_from(self, y: int) -> Seq<Point>
        decreases self.end.1 + 1 - y,
    {
        if y > self.end.1 {
            Seq::<Point>::empty()
        } else {
            self.line_of(y as usize) + self.rows_from(y + 1)
        }
    }

    /// The points of the top edge, left to right.
    pub open spec fn spec_top_edge(self) -> Seq<Point> {
        if self.start.0 <= self.end.0 {
            row(self.start.0, self.end.0, self.start.1)
        } else {
            Seq::<Point>::empty()
        }
    }

    /// The points of the bottom edge, left to right.
    pub open spec fn spec_bottom_edge(self) -> Seq<Point> {
        if self.start.0 <= self.end.0 {
            row(self.start.0, self.end.0, self.end.1)
        } else {
            Seq::<Point>::empty()
        }
    }

    /// The points of the left edge, top to bottom.
    pub open spec fn spec_left_edge(self) -> Seq<Point> {
        if self.start.1 <= self.end.1 {
            column(self.start.0, self.start.1, self.end.1)
        } else {
            Seq::<Point>::empty()
        }
    }

    /// The points of the right edge, top to bottom.
    pub open spec fn spec_right_edge(self) -> Seq<Point> {
        if self.start.1 <= self.end.1 {
            column(self.end.0, self.start.1, self.end.1)
        } else {
            Seq::<Point>::empty()
        }
    }

    /// The outline, clockwise from the top-left corner: the top edge, then the right edge,
    /// the bottom edge backwards and the left edge backwards, each without its first point.
    pub open spec fn spec_outline(self) -> Seq<Point> {
        self.spec_top_edge() + tail(self.spec_right_edge()) + tail(
            self.spec_bottom_edge().reverse(),
        ) + tail(self.spec_left_edge().reverse())
    }

    /// The region moved by `(dx, dy)`, each coordinate clamped at 0.
    pub open spec fn spec_translated(self, dx: i32, dy: i32) -> Region {
        Region {
            start: Point(clamped_shift(self.start.0, dx), clamped_shift(self.start.1, dy)),
            end: Point(clamped_shift(self.end.0, dx), clamped_shift(self.end.1, dy)),
        }
    }

    /// Moving by `(dx, dy)` stays within `i32` for every coordinate.
    pub open spec fn can_translate(self, dx: i32, dy: i32) -> bool {
        &&& can_shift(self.start.0, dx)
        &&& can_shift(self.start.1, dy)
        &&& can_shift(self.end.0, dx)
        &&& can_shift(self.end.1, dy)
    }

    /// The region with `(add_x, add_y)` added to its end, saturating at 0 and `usize::MAX`.
    pub open spec fn spec_enlarged(self, add_x: i32, add_y: i32) -> Region {
        Region {
            start: self.start,
            end: Point(saturating_offset(self.end.0, add_x), saturating_offset(self.end.1, add_y)),
        }
    }
}

/// `(c as i32 + d).max(0) as usize`.
pub open spec fn clamped_shift(c: usize, d: i32) -> usize {
    let s = (c as i32) + d;
    if s < 0 {
        0
    } else {
        s as usize
    }
}

/// `c + d`, saturating at 0 and at `usize::MAX`.
pub open spec fn saturating_offset(c: usize, d: i32) -> usize {
    let s = c + d;
    if s < 0 {
        0
    } else if s > usize::MAX {
        usize::MAX
    } else {
        s as usize
    }
}

/// `i32` division by 2, rounding toward zero.
pub open spec fn half_toward_zero(v: int) -> int {
    if v >= 0 {
        v / 2
    } else {
        -((-v) / 2)
    }
}

fn clamped_shift_exec(c: usize, d: i32) -> (r: usize)
    requires
        can_shift(c, d),
    ensures
        r == clamped_shift(c, d),
{
    let s = (c as i32) + d;
    if s < 0 {
        0
    } else {
        s as usize
    }
}

pub(crate) fn saturating_offset_exec(c: usize, d: i32) -> (r: usize)
    ensures
        r == saturating_offset(c, d),
{
    if d >= 0 {
        let du = d as usize;
        if c > usize::MAX - du {
            usize::MAX
        } else {
            c + du
        }
    } else {
        let du = ((-(d as i64)) as u64) as usize;
        if c < du {
            0
        } else {
            c - du
        }
    }
}

/// Appends the points `(x, y)` for `x` from `sx` to `ex`.
fn push_row(out: &mut Vec<Point>, sx: usize, ex: usize, y: usize)
    requires
        sx <= ex,
    ensures
        final(out)@ == old(out)@ + row(sx, ex, y),
{
    let ghost base = out@;
    let n = ex - sx;
    let mut i: usize = 0;
    loop
        invariant_except_break
            i <= n,
            n == ex - sx,
            out@ == base + row(sx, ex, y).take(i as int),
        ensures
            out@ == base + row(sx, ex, y),
        decreases n - i,
    {
        out.push(Point(sx + i, y));
        proof {
            assert(out@ =~= base + row(sx, ex, y).take(i + 1));
        }
        if i == n {
            proof {
                assert(row(sx, ex, y).take(n + 1) =~= row(sx, ex, y));
            }
            break;
        }
        i = i + 1;
    }
}

/// Appends the points `(x, y)` for `y` from `sy` to `ey`.
fn push_column(out: &mut Vec<Point>, x: usize, sy: usize, ey: usize)
    requires
        sy <= ey,
    ensures
        final(out)@ == old(out)@ + column(x, sy, ey),
{
    let ghost base = out@;
    let n = ey - sy;
    let mut i: usize = 0;
    loop
        invariant_except_break
            i <= n,
            n == ey - sy,
            out@ == base + column(x, sy, ey).take(i as int),
        ensures
            out@ == base + column(x, sy, ey),
        decreases n - i,
    {
        out.push(Point(x, sy + i));
        proof {
            assert(out@ =~= base + column(x, sy, ey).take(i + 1));
        }
        if i == n {
            proof {
                assert(column(x, sy, ey).take(n + 1) =~= column(x, sy, ey));
            }
            break;
        }
        i = i + 1;
    }
}

/// Appends `s` backwards, without its last element (its first once reversed).
fn push_reversed_tail(out: &mut Vec<Point>, s: &Vec<Point>)
    ensures
        final(out)@ == old(out)@ + tail(s@.reverse()),
{
    let ghost base = out@;
    if s.len() == 0 {
        assert(out@ =~= base + tail(s@.reverse()));
        return;
    }
    let mut i: usize = s.len() - 1;
    while i > 0
        invariant
            0 <= i < s@.len(),
            out@ == base + tail(s@.reverse()).take(s@.len() - 1 - i),
        decreases i,
    {
        out.push(s[i - 1]);
        proof {
            assert(out@ =~= base + tail(s@.reverse()).take(s@.len() - i));
        }
        i = i - 1;
    }
    assert(tail(s@.reverse()).take(s@.len() - 1) =~= tail(s@.reverse()));
}

/// Iterates the points of a region row by row.
pub struct RegionIterator {
    region: Region,
    current: Point,
}

impl RegionIterator {
    /// The region iterated.
    pub closed spec fn spec_region(self) -> Region {
        self.region
    }

    /// The point the next call starts from.
    pub closed spec fn spec_current(self) -> Point {
        self.current
    }

    /// The position after moving past the end of a row.
    pub open spec fn wrapped(self) -> Point {
        if self.spec_current().0 > self.spec_region().end.0 {
            Point(self.spec_region().start.0, (self.spec_current().1 + 1) as usize)
        } else {
            self.spec_current()
        }
    }

    /// The points the iteration has still to yield.
    pub open spec fn remaining(self) -> Seq<Point> {
        let r = self.spec_region();
        let c = self.spec_current();
        if c.0 > r.end.0 {
            r.rows_from(c.1 + 1)
        } else if c.1 > r.end.1 {
            Seq::<Point>::empty()
        } else {
            row(c.0, r.end.0, c.1) + r.rows_from(c.1 + 1)
        }
    }

    /// Yields the next point, row by row: past the end of a row the iteration moves to the
    /// start of the next row, and past the last row it yields nothing.
    pub fn next(&mut self) -> (r: Option<Point>)
        requires
            old(self).spec_current().0 > old(self).spec_region().end.0
                ==> old(self).spec_current().1 < usize::MAX,
            old(self).wrapped().1 <= old(self).spec_region().end.1 ==> old(self).wrapped().0
                < usize::MAX,
        ensures
            final(self).spec_region() == old(self).spec_region(),
            old(self).wrapped().1 > old(self).spec_region().end.1 ==> r is None
                && final(self).spec_current() == old(self).wrapped(),
            old(self).wrapped().1 <= old(self).spec_region().end.1 ==> r == Some(
                old(self).wrapped(),
            ) && final(self).spec_current() == Point(
                (old(self).wrapped().0 + 1) as usize,
                old(self).wrapped().1,
            ),
            r is None <==> old(self).remaining().len() == 0,
            r matches Some(p) ==> p == old(self).remaining()[0] && final(self).remaining()
                == old(self).remaining().drop_first(),
    {
        proof {
            lemma_next_remaining(*old(self));
        }
        if self.current.x() > self.region.end.x() {
            let y = self.current.y() + 1;
            self.current.set(self.region.start.x(), y);
        }
        if self.current.y() > self.region.end.y() {
            return None;
        }
        let result = self.current;
        let x = self.current.x() + 1;
        self.current.set_x(x);
        Some(result)
    }
}

proof fn lemma_row_drop_first(sx: usize, ex: usize, y: usize)
    requires
        sx <= ex,
    ensures
        row(sx, ex, y).len() > 0,
        row(sx, ex, y)[0] == Point(sx, y),
        sx + 1 <= ex ==> row(sx, ex, y).drop_first() == row((sx + 1) as usize, ex, y),
        sx == ex ==> row(sx, ex, y).drop_first() == Seq::<Point>::empty(),
{
    if sx + 1 <= ex {
        assert(row(sx, ex, y).drop_first() =~= row((sx + 1) as usize, ex, y));
    } else {
        assert(row(sx, ex, y).drop_first() =~= Seq::<Point>::empty());
    }
}

/// What one step of the iteration yields is the first of the points still to come, and
/// the points to come after it are the rest.
proof fn lemma_next_remaining(it: RegionIterator)
    requires
        it.spec_current().0 > it.spec_region().end.0 ==> it.spec_current().1 < usize::MAX,
        it.wrapped().1 <= it.spec_region().end.1 ==> it.wrapped().0 < usize::MAX,
    ensures
        it.wrapped().1 > it.spec_region().end.1 <==> it.remaining().len() == 0,
        it.wrapped().1 <= it.spec_region().end.1 ==> it.remaining()[0] == it.wrapped() && (
        RegionIterator {
            region: it.spec_region(),
            current: Point((it.wrapped().0 + 1) as usize, it.wrapped().1),
        }).remaining() == it.remaining().drop_first(),
{
    let r = it.spec_region();
    let c = it.spec_current();
    let w = it.wrapped();
    let next = RegionIterator { region: r, current: Point((w.0 + 1) as usize, w.1) };
    assert(next.spec_region() == r);
    assert(next.spec_current() == Point((w.0 + 1) as usize, w.1));
    if w.1 <= r.end.1 {
        let rest = r.rows_from(w.1 + 1);
        if c.0 > r.end.0 {
            assert(r.rows_from(c.1 + 1) == r.line_of(w.1) + rest);
            if r.start.0 <= r.end.0 {
                lemma_row_drop_first(r.start.0, r.end.0, w.1);
                assert((r.line_of(w.1) + rest)[0] == r.line_of(w.1)[0]);
                assert((r.line_of(w.1) + rest).drop_first() =~= r.line_of(w.1).drop_first() + rest);
            } else {
                assert((r.line_of(w.1) + rest).drop_first() =~= rest);
            }
        } else {
            lemma_row_drop_first(c.0, r.end.0, c.1);
            assert((row(c.0, r.end.0, c.1) + rest)[0] == row(c.0, r.end.0, c.1)[0]);
            assert((row(c.0, r.end.0, c.1) + rest).drop_first() =~= row(c.0, r.end.0, c.1).drop_first()
                + rest);
        }
    } else {
        if c.0 > r.end.0 {
            assert(r.rows_from(c.1 + 1) =~= Seq::<Point>::empty());
        }
    }
}

proof fn lemma_rows_split(r: Region, y: int)
    requires
        r.start.0 <= r.end.0,
        r.start.1 <= y <= r.end.1 + 1,
    ensures
        r.rows_through(y - 1) + r.rows_from(y) == r.rows_through(r.end.1 as int),
    decreases r.end.1 + 1 - y,
{
    if y <= r.end.1 {
        lemma_rows_split(r, y + 1);
        assert(r.rows_through(y) == r.rows_through(y - 1) + row(r.start.0, r.end.0, y as usize));
        assert(r.rows_through(y - 1) + r.rows_from(y) =~= r.rows_through(y) + r.rows_from(y + 1));
    } else {
        assert(r.rows_through(y - 1) + r.rows_from(y) =~= r.rows_through(y - 1));
    }
}

proof fn lemma_rows_column(r: Region, y: int)
    requires
        r.start.0 > r.end.0,
        r.end.1 < usize::MAX,
        0 <= y <= r.end.1 + 1,
    ensures
        r.rows_from(y) == column(r.start.0, y as usize, r.end.1),
    decreases r.end.1 + 1 - y,
{
    if y <= r.end.1 {
        lemma_rows_column(r, y + 1);
        assert(r.rows_from(y) =~= column(r.start.0, y as usize, r.end.1));
    } else {
        assert(column(r.start.0, y as usize, r.end.1) =~= Seq::<Point>::empty());
    }
}

/// An iteration that starts at the region's start has the region's points still to yield
/// (see `spec_points`): with `next`'s contract, iterating a region yields exactly its points,
/// in order, and then nothing.
pub proof fn law_iteration_yields_points(it: RegionIterator)
    requires
        it.spec_current() == it.spec_region().start,
        it.spec_region().end.1 < usize::MAX,
    ensures
        it.remaining() == it.spec_region().spec_points(),
{
    let r = it.spec_region();
    if r.start.0 <= r.end.0 {
        if r.start.1 <= r.end.1 {
            lemma_rows_split(r, r.start.1 as int);
            assert(r.rows_through(r.start.1 - 1) =~= Seq::<Point>::empty());
            assert(r.rows_from(r.start.1 as int) == row(r.start.0, r.end.0, r.start.1) + r.rows_from(
                r.start.1 + 1,
            ));
            assert(Seq::<Point>::empty() + r.rows_from(r.start.1 as int) =~= r.rows_from(
                r.start.1 as int,
            ));
        } else {
            assert(r.rows_through(r.end.1 as int) =~= Seq::<Point>::empty());
        }
    } else {
        if r.start.1 < r.end.1 {
            lemma_rows_column(r, r.start.1 + 1);
        } else {
            assert(r.rows_from(r.start.1 + 1) =~= Seq::<Point>::empty());
        }
    }
}

proof fn lemma_rows_through_len(r: Region, y: int)
    requires
        r.start.0 <= r.end.0,
        r.start.1 - 1 <= y,
    ensures
        r.rows_through(y).len() == (y - r.start.1 + 1) * (r.end.0 - r.start.0 + 1),
    decreases y - r.start.1 + 1,
{
    let w = r.end.0 - r.start.0 + 1;
    if y >= r.start.1 {
        lemma_rows_through_len(r, y - 1);
        assert(row(r.start.0, r.end.0, y as usize).len() == w);
        assert((y - r.start.1) * w + w == (y - r.start.1 + 1) * w) by (nonlinear_arith);
    } else {
        assert((y - r.start.1 + 1) * w == 0) by (nonlinear_arith)
            requires
                y - r.start.1 + 1 == 0,
        ;
    }
}

/// A region whose start is not after its end has as many points as its width times its
/// height.
pub proof fn lemma_points_len(r: Region)
    requires
        r.start.0 <= r.end.0,
        r.start.1 <= r.end.1,
    ensures
        r.spec_points().len() == (r.end.0 - r.start.0 + 1) * (r.end.1 - r.start.1 + 1),
{
    lemma_rows_through_len(r, r.end.1 as int);
    assert((r.end.1 - r.start.1 + 1) * (r.end.0 - r.start.0 + 1) == (r.end.0 - r.start.0 + 1)
        * (r.end.1 - r.start.1 + 1)) by (nonlinear_arith);
}

/// Anything that can tell whether it holds a value.
pub trait Containable<T> {
    spec fn holds(&self, value: T) -> bool;

    fn contains(&self, value: &T) -> (r: bool)
        ensures
            r == self.holds(*value),
    ;
}

impl Containable<Point> for Region {
    open spec fn holds(&self, value: Point) -> bool {
        self.spec_contains(value)
    }

    fn contains(&self, value: &Point) -> (r: bool) {
        self.start.x() <= value.x() && value.x() <= self.end.x() && self.start.y() <= value.y()
            && value.y() <= self.end.y()
    }
}

impl Region {
    /// An iterator over the points of the region, from its start (see `spec_points`).
    pub fn iter(&self) -> (it: RegionIterator)
        ensures
            it.spec_region() == *self,
            it.spec_current() == self.start,
    {
        RegionIterator { region: *self, current: self.start }
    }

    /// The points that iterating the region yields (see `spec_points`), collected from `iter`.
    /// Iterating past the grid's last row or column overflows, so the region must not reach
    /// them, nor, when its start lies right of its end, start on the last row or in the last
    /// column with rows below.
    pub fn points(&self) -> (v: Vec<Point>)
        requires
            self.end.0 < usize::MAX,
            self.end.1 < usize::MAX,
            self.start.0 > self.end.0 ==> self.start.1 < usize::MAX && (self.start.1 < self.end.1
                ==> self.start.0 < usize::MAX),
        ensures
            v@ == self.spec_points(),
    {
        let mut it = self.iter();
        let mut out: Vec<Point> = Vec::new();
        proof {
            law_iteration_yields_points(it);
        }
        let mut done = false;
        while !done
            invariant
                it.spec_region() == *self,
                self.end.0 < usize::MAX,
                self.end.1 < usize::MAX,
                self.start.0 > self.end.0 ==> self.start.1 < usize::MAX && (self.start.1
                    < self.end.1 ==> self.start.0 < usize::MAX),
                !done ==> it.spec_current().1 >= self.start.1,
                !done ==> (it.spec_current().0 > self.end.0 ==> it.spec_current().1 < usize::MAX),
                out@ + it.remaining() == self.spec_points(),
                done ==> it.remaining().len() == 0,
            decreases (if done {
                0
            } else {
                it.remaining().len() + 1
            }),
        {
            let ghost before = it.remaining();
            match it.next() {
                Some(p) => {
                    let ghost o = out@;
                    out.push(p);
                    assert(out@ + it.remaining() =~= o + before);
                },
                None => {
                    done = true;
                    assert(out@ + it.remaining() =~= out@ + before);
                },
            }
        }
        assert(out@ + it.remaining() =~= out@);
        out
    }

    /// The points of the region that do not lie in `except`, in iteration order: those that
    /// iterating the region from its start yields, filtered.
    pub fn except(&self, except: &Region) -> (v: Vec<Point>)
        requires
            self.end.0 < usize::MAX,
            self.end.1 < usize::MAX,
            self.start.0 > self.end.0 ==> self.start.1 < usize::MAX && (self.start.1 < self.end.1
                ==> self.start.0 < usize::MAX),
        ensures
            v@ == self.spec_points().filter(|p: Point| !except.spec_contains(p)),
            forall|it: RegionIterator|
                it.spec_region() == *self && it.spec_current() == self.start ==> v@
                    == (#[trigger] it.remaining()).filter(|p: Point| !except.spec_contains(p)),
    {
        let all = self.points();
        let ghost pred = |p: Point| !except.spec_contains(p);
        let mut out: Vec<Point> = Vec::new();
        let mut i: usize = 0;
        while i < all.len()
            invariant
                i <= all@.len(),
                all@ == self.spec_points(),
                pred == (|p: Point| !except.spec_contains(p)),
                out@ == all@.take(i as int).filter(pred),
            decreases all@.len() - i,
        {
            proof {
                assert(all@.take(i + 1) =~= all@.take(i as int).push(all@[i as int]));
                all@.take(i as int).lemma_filter_push(all@[i as int], pred);
            }
            if !except.contains(&all[i]) {
                out.push(all[i]);
            }
            i = i + 1;
        }
        assert(all@.take(all@.len() as int) =~= all@);
        assert forall|it: RegionIterator|
            it.spec_region() == *self && it.spec_current() == self.start implies out@
            == (#[trigger] it.remaining()).filter(|p: Point| !except.spec_contains(p)) by {
            law_iteration_yields_points(it);
        }
        out
    }

    /// The points strictly below the diagonal (`x < y`), in iteration order.
    pub fn iter_lower_triangle(&self) -> (v: Vec<Point>)
        requires
            self.end.0 < usize::MAX,
            self.end.1 < usize::MAX,
            self.start.0 > self.end.0 ==> self.start.1 < usize::MAX && (self.start.1 < self.end.1
                ==> self.start.0 < usize::MAX),
        ensures
            v@ == self.spec_points().filter(|p: Point| p.0 < p.1),
    {
        let all = self.points();
        let ghost pred = |p: Point| p.0 < p.1;
        let mut out: Vec<Point> = Vec::new();
        let mut i: usize = 0;
        while i < all.len()
            invariant
                i <= all@.len(),
                all@ == self.spec_points(),
                pred == (|p: Point| p.0 < p.1),
                out@ == all@.take(i as int).filter(pred),
            decreases all@.len() - i,
        {
            proof {
                assert(all@.take(i + 1) =~= all@.take(i as int).push(all@[i as int]));
                all@.take(i as int).lemma_filter_push(all@[i as int], pred);
            }
            if all[i].x() < all[i].y() {
                out.push(all[i]);
            }
            i = i + 1;
        }
        assert(all@.take(all@.len() as int) =~= all@);
        out
    }

    /// The points on or above the diagonal (`x >= y`), in iteration order.
    pub fn iter_upper_strict_triangle(&self) -> (v: Vec<Point>)
        requires
            self.end.0 < usize::MAX,
            self.end.1 < usize::MAX,
            self.start.0 > self.end.0 ==> self.start.1 < usize::MAX && (self.start.1 < self.end.1
                ==> self.start.0 < usize::MAX),
        ensures
            v@ == self.spec_points().filter(|p: Point| p.0 >= p.1),
    {
        let all = self.points();
        let ghost pred = |p: Point| p.0 >= p.1;
        let mut out: Vec<Point> = Vec::new();
        let mut i: usize = 0;
        while i < all.len()
            invariant
                i <= all@.len(),
                all@ == self.spec_points(),
                pred == (|p: Point| p.0 >= p.1),
                out@ == all@.take(i as int).filter(pred),
            decreases all@.len() - i,
        {
            proof {
                assert(all@.take(i + 1) =~= all@.take(i as int).push(all@[i as int]));
                all@.take(i as int).lemma_filter_push(all@[i as int], pred);
            }
            if all[i].x() >= all[i].y() {
                out.push(all[i]);
            }
            i = i + 1;
        }
        assert(all@.take(all@.len() as int) =~= all@);
        out
    }

    /// The points of the top edge, left to right.
    pub fn top_edge(&self) -> (v: Vec<Point>)
        ensures
            v@ == self.spec_top_edge(),
    {
        let mut out: Vec<Point> = Vec::new();
        if self.start.x() <= self.end.x() {
            push_row(&mut out, self.start.x(), self.end.x(), self.start.y());
        }
        assert(out@ =~= self.spec_top_edge());
        out
    }

    /// The points of the bottom edge, left to right.
    pub fn bottom_edge(&self) -> (v: Vec<Point>)
        ensures
            v@ == self.spec_bottom_edge(),
    {
        let mut out: Vec<Point> = Vec::new();
        if self.start.x() <= self.end.x() {
            push_row(&mut out, self.start.x(), self.end.x(), self.end.y());
        }
        assert(out@ =~= self.spec_bottom_edge());
        out
    }

    /// The points of the left edge, top to bottom.
    pub fn left_edge(&self) -> (v: Vec<Point>)
        ensures
            v@ == self.spec_left_edge(),
    {
        let mut out: Vec<Point> = Vec::new();
        if self.start.y() <= self.end.y() {
            push_column(&mut out, self.start.x(), self.start.y(), self.end.y());
        }
        assert(out@ =~= self.spec_left_edge());
        out
    }

    /// The points of the right edge, top to bottom.
    pub fn right_edge(&self) -> (v: Vec<Point>)
        ensures
            v@ == self.spec_right_edge(),
    {
        let mut out: Vec<Point> = Vec::new();
        if self.start.y() <= self.end.y() {
            push_column(&mut out, self.end.x(), self.start.y(), self.end.y());
        }
        assert(out@ =~= self.spec_right_edge());
        out
    }

    /// The points outlining the region, clockwise from the top-left corner.
    pub fn outline(&self) -> (v: Vec<Point>)
        ensures
            v@ == self.spec_outline(),
    {
        let mut out = self.top_edge();
        let right = self.right_edge();
        let mut i: usize = 1;
        let ghost base = out@;
        assert(base == self.spec_top_edge());
        assert(tail(right@).take(0) =~= Seq::<Point>::empty());
        while i < right.len()
            invariant
                1 <= i,
                i <= right@.len() || i == 1,
                right@ == self.spec_right_edge(),
                out@ == base + tail(right@).take(i - 1),
            decreases right@.len() - i,
        {
            out.push(right[i]);
            proof {
                assert(out@ =~= base + tail(right@).take(i as int));
            }
            i = i + 1;
        }
        proof {
            if right@.len() == 0 {
                assert(tail(right@).take(0) =~= tail(right@));
                assert(i == 1);
            } else {
                assert(i == right@.len());
                assert(tail(right@).take(right@.len() - 1) =~= tail(right@));
            }
            assert(out@ == base + tail(right@));
        }
        assert(out@ == self.spec_top_edge() + tail(self.spec_right_edge()));
        let bottom = self.bottom_edge();
        push_reversed_tail(&mut out, &bottom);
        assert(out@ == self.spec_top_edge() + tail(self.spec_right_edge()) + tail(
            self.spec_bottom_edge().reverse(),
        ));
        let left = self.left_edge();
        push_reversed_tail(&mut out, &left);
        assert(out@ =~= self.spec_outline());
        out
    }

    /// The corners of the region's outline, clockwise from the top-left: each lies on the
    /// outer side of its cell, so the right and bottom ones are one past the end.
    pub fn corners(&self) -> (c: [Point; 4])
        requires
            can_shift(self.end.0, 1),
            can_shift(self.end.1, 1),
            can_shift(self.start.0, 0),
            can_shift(self.start.1, 0),
            can_shift(self.end.0, 0),
        ensures
            c@ == seq![
                Point(self.start.0, self.start.1),
                Point(shifted(self.end.0, 1), shifted(self.start.1, 0)),
                Point(shifted(self.end.0, 1), shifted(self.end.1, 1)),
                Point(shifted(self.start.0, 0), shifted(self.end.1, 1)),
            ],
    {
        let c = [
            self.topleft(),
            self.topright().translated(1, 0),
            self.bottomright().translated(1, 1),
            self.bottomleft().translated(0, 1),
        ];
        assert(c@ =~= seq![
            Point(self.start.0, self.start.1),
            Point(shifted(self.end.0, 1), shifted(self.start.1, 0)),
            Point(shifted(self.end.0, 1), shifted(self.end.1, 1)),
            Point(shifted(self.start.0, 0), shifted(self.end.1, 1)),
        ]);
        c
    }

    /// The region has no point.
    pub fn is_empty(&self) -> (r: bool)
        requires
            self.end.0 - self.start.0 < usize::MAX,
            self.end.1 - self.start.1 < usize::MAX,
        ensures
            r == (self.spec_width() == 0 || self.spec_height() == 0),
    {
        self.width() == 0 || self.height() == 0
    }

    /// Refuses an empty region.
    pub fn ensure_nonempty(&self) -> (r: Result<(), RegionError>)
        requires
            self.end.0 - self.start.0 < usize::MAX,
            self.end.1 - self.start.1 < usize::MAX,
        ensures
            r == (if self.spec_width() == 0 || self.spec_height() == 0 {
                Err(RegionError::Empty(*self))
            } else {
                Ok(())
            }),
    {
        if self.is_empty() {
            return Err(RegionError::Empty(*self));
        }
        Ok(())
    }

    /// A region from `start` to `end`, refused unless valid (see `validated`).
    pub fn new(start: Point, end: Point) -> (r: Result<Region, RegionError>)
        ensures
            r == (Region { start, end }).validated(),
    {
        let region = Region { start, end };
        region.ensure_valid()
    }

    /// The bottom-left corner point.
    pub fn bottomleft(&self) -> (p: Point)
        ensures
            p == Point(self.start.0, self.end.1),
    {
        Point(self.start.x(), self.end.y())
    }

    /// The bottom-right corner point.
    pub fn bottomright(&self) -> (p: Point)
        ensures
            p == Point(self.end.0, self.end.1),
    {
        Point(self.end.x(), self.end.y())
    }

    /// The top-left corner point.
    pub fn topleft(&self) -> (p: Point)
        ensures
            p == Point(self.start.0, self.start.1),
    {
        Point(self.start.x(), self.start.y())
    }

    /// The top-right corner point.
    pub fn topright(&self) -> (p: Point)
        ensures
            p == Point(self.end.0, self.start.1),
    {
        Point(self.end.x(), self.start.y())
    }

    /// The middle point, rounding down.
    pub fn center(&self) -> (p: Point)
        requires
            self.start.0 + self.end.0 <= usize::MAX,
            self.start.1 + self.end.1 <= usize::MAX,
        ensures
            p == Point(
                ((self.start.0 + self.end.0) / 2) as usize,
                ((self.start.1 + self.end.1) / 2) as usize,
            ),
    {
        Point((self.start.x() + self.end.x()) / 2, (self.start.y() + self.end.y()) / 2)
    }

    /// `other` when this region lies inside it, else this region.
    pub fn max(&self, other: &Region) -> (r: Region)
        ensures
            r == (if self.spec_within(*other) {
                *other
            } else {
                *self
            }),
    {
        if self.within(other) {
            *other
        } else {
            *self
        }
    }

    /// The smallest region holding both regions.
    pub fn merge(&self, other: &Region) -> (r: Region)
        ensures
            r == self.spec_merge(*other),
    {
        Region {
            start: Point(
                if self.start.x() <= other.start.x() {
                    self.start.x()
                } else {
                    other.start.x()
                },
                if self.start.y() <= other.start.y() {
                    self.start.y()
                } else {
                    other.start.y()
                },
            ),
            end: Point(
                if self.end.x() >= other.end.x() {
                    self.end.x()
                } else {
                    other.end.x()
                },
                if self.end.y() >= other.end.y() {
                    self.end.y()
                } else {
                    other.end.y()
                },
            ),
        }
    }

    /// The region from `(0, 0)` to `end`, refused unless valid.
    pub fn from_origin(end: Point) -> (r: Result<Region, RegionError>)
        ensures
            r == (Region { start: Point(0, 0), end }).validated(),
    {
        Self::new(Point(0, 0), end)
    }

    /// The end of a region of `size` starting at `origin`.
    pub open spec fn sized_end(origin: Point, size: (usize, usize)) -> Point {
        Point(
            (origin.0 + shifted(size.0, -1i32)) as usize,
            (origin.1 + shifted(size.1, -1i32)) as usize,
        )
    }

    /// The computation of `sized_end` stays within bounds.
    pub open spec fn can_size(origin: Point, size: (usize, usize)) -> bool {
        &&& can_shift(size.0, -1i32)
        &&& can_shift(size.1, -1i32)
        &&& origin.0 + shifted(size.0, -1i32) <= usize::MAX
        &&& origin.1 + shifted(size.1, -1i32) <= usize::MAX
    }

    /// The region of `size` (columns, rows) whose top-left point is `origin`, refused unless
    /// valid.
    pub fn from_topleft(origin: Point, size: (usize, usize)) -> (r: Result<Region, RegionError>)
        requires
            Self::can_size(origin, size),
        ensures
            r == (Region { start: origin, end: Self::sized_end(origin, size) }).validated(),
    {
        Self::new(origin, origin.translated_by(Point(size.0, size.1).translated(-1, -1)))
    }

    /// The region of `size` whose top-left point is this region's start.
    pub fn starting_from_topleft(&self, size: (usize, usize)) -> (r: Result<Region, RegionError>)
        requires
            Self::can_size(self.start, size),
        ensures
            r == (Region {
                start: self.start,
                end: Self::sized_end(self.start, size),
            }).validated(),
    {
        Self::from_topleft(self.start, size)
    }

    /// `-(n as i32 - 1)`: how far back a corner lies from the opposite one for a size `n`.
    pub open spec fn back(n: usize) -> int {
        -((n as i32) - 1)
    }

    /// `back(n)` is computed within `i32`.
    pub open spec fn can_back(n: usize) -> bool {
        (n as i32) - 1 >= i32::MIN && -((n as i32) - 1) <= i32::MAX
    }

    /// The region of `size` whose bottom-left point is `origin`, refused unless valid.
    pub fn from_bottomleft(origin: Point, size: (usize, usize)) -> (r: Result<
        Region,
        RegionError,
    >)
        requires
            Self::can_back(size.1),
            can_shift(origin.1, Self::back(size.1) as i32),
            can_shift(origin.0, 0),
            Self::can_size(origin.spec_translated(0, Self::back(size.1) as i32), size),
        ensures
            r == (Region {
                start: origin.spec_translated(0, Self::back(size.1) as i32),
                end: Self::sized_end(origin.spec_translated(0, Self::back(size.1) as i32), size),
            }).validated(),
    {
        let (w, h) = size;
        let up = -((h as i32) - 1);
        Self::from_topleft(origin.translated(0, up), (w, h))
    }

    /// The region of `size` whose bottom-left point is this region's bottom-left point.
    pub fn starting_from_bottomleft(&self, size: (usize, usize)) -> (r: Result<
        Region,
        RegionError,
    >)
        requires
            Self::can_back(size.1),
            can_shift(self.end.1, Self::back(size.1) as i32),
            can_shift(self.start.0, 0),
            Self::can_size(
                Point(self.start.0, self.end.1).spec_translated(0, Self::back(size.1) as i32),
                size,
            ),
        ensures
            r == (Region {
                start: Point(self.start.0, self.end.1).spec_translated(
                    0,
                    Self::back(size.1) as i32,
                ),
                end: Self::sized_end(
                    Point(self.start.0, self.end.1).spec_translated(0, Self::back(size.1) as i32),
                    size,
                ),
            }).validated(),
    {
        Self::from_bottomleft(self.bottomleft(), size)
    }

    /// The region of `size` whose bottom-right point is `origin`, refused unless valid.
    pub fn from_bottomright(origin: Point, size: (usize, usize)) -> (r: Result<
        Region,
        RegionError,
    >)
        requires
            Self::can_back(size.0),
            Self::can_back(size.1),
            origin.can_translate(Self::back(size.0) as i32, Self::back(size.1) as i32),
        ensures
            r == (Region {
                start: origin.spec_translated(Self::back(size.0) as i32, Self::back(size.1) as i32),
                end: origin,
            }).validated(),
    {
        let (w, h) = size;
        let left = -((w as i32) - 1);
        let up = -((h as i32) - 1);
        Self::new(origin.translated(left, up), origin)
    }

    /// The region of `size` whose bottom-right point is this region's end.
    pub fn starting_from_bottomright(&self, size: (usize, usize)) -> (r: Result<
        Region,
        RegionError,
    >)
        requires
            Self::can_back(size.0),
            Self::can_back(size.1),
            self.end.can_translate(Self::back(size.0) as i32, Self::back(size.1) as i32),
        ensures
            r == (Region {
                start: self.end.spec_translated(
                    Self::back(size.0) as i32,
                    Self::back(size.1) as i32,
                ),
                end: self.end,
            }).validated(),
    {
        Self::from_bottomright(self.bottomright(), size)
    }

    /// The region of `size` whose top-right point is `origin`, refused unless valid.
    pub fn from_topright(origin: Point, size: (usize, usize)) -> (r: Result<Region, RegionError>)
        requires
            Self::can_back(size.0),
            origin.can_translate(Self::back(size.0) as i32, 0),
            Self::can_size(origin.spec_translated(Self::back(size.0) as i32, 0), size),
        ensures
            r == (Region {
                start: origin.spec_translated(Self::back(size.0) as i32, 0),
                end: Self::sized_end(origin.spec_translated(Self::back(size.0) as i32, 0), size),
            }).validated(),
    {
        let (w, h) = size;
        let left = -((w as i32) - 1);
        Self::from_topleft(origin.translated(left, 0), (w, h))
    }

    /// The region of `size` whose top-right point is this region's top-right point.
    pub fn starting_from_topright(&self, size: (usize, usize)) -> (r: Result<
        Region,
        RegionError,
    >)
        requires
            Self::can_back(size.0),
            Point(self.end.0, self.start.1).can_translate(Self::back(size.0) as i32, 0),
            Self::can_size(
                Point(self.end.0, self.start.1).spec_translated(Self::back(size.0) as i32, 0),
                size,
            ),
        ensures
            r == (Region {
                start: Point(self.end.0, self.start.1).spec_translated(
                    Self::back(size.0) as i32,
                    0,
                ),
                end: Self::sized_end(
                    Point(self.end.0, self.start.1).spec_translated(Self::back(size.0) as i32, 0),
                    size,
                ),
            }).validated(),
    {
        Self::from_topright(self.topright(), size)
    }

    /// The region of `size` around `center`: half the size (rounded down) on each side.
    pub fn from_center_and_size(center: Point, size: (usize, usize)) -> (r: Result<
        Region,
        RegionError,
    >)
        requires
            center.0 >= size.0 / 2,
            center.1 >= size.1 / 2,
            center.0 + size.0 / 2 <= usize::MAX,
            center.1 + size.1 / 2 <= usize::MAX,
        ensures
            r == (Region {
                start: Point((center.0 - size.0 / 2) as usize, (center.1 - size.1 / 2) as usize),
                end: Point((center.0 + size.0 / 2) as usize, (center.1 + size.1 / 2) as usize),
            }).validated(),
    {
        let (w, h) = size;
        let (half_w, half_h) = (w / 2, h / 2);
        Self::new(
            Point(center.x() - half_w, center.y() - half_h),
            Point(center.x() + half_w, center.y() + half_h),
        )
    }

    /// This region if valid; else the reason it is not: a start after the end, or a
    /// coordinate within 10 of `usize::MAX`.
    pub fn ensure_valid(self) -> (r: Result<Region, RegionError>)
        ensures
            r == self.validated(),
    {
        if self.start.x() > self.end.x() || self.start.y() > self.end.y() {
            return Err(RegionError::StartAfterEnd(self));
        }
        let limit = usize::MAX - 10;
        if self.start.x() >= limit || self.start.y() >= limit || self.end.x() >= limit
            || self.end.y() >= limit {
            return Err(RegionError::NearMaximum(self));
        }
        Ok(self)
    }

    /// Moves the region by `(dx, dy)` (see `translated`).
    pub fn translate(&mut self, dx: i32, dy: i32)
        requires
            old(self).can_translate(dx, dy),
        ensures
            *final(self) == old(self).spec_translated(dx, dy),
    {
        *self = self.translated(dx, dy);
    }

    /// The region moved by `(dx, dy)`; each coordinate goes through `i32` and is clamped at 0.
    pub fn translated(&self, dx: i32, dy: i32) -> (r: Region)
        requires
            self.can_translate(dx, dy),
        ensures
            r == self.spec_translated(dx, dy),
    {
        Region {
            start: Point(
                clamped_shift_exec(self.start.x(), dx),
                clamped_shift_exec(self.start.y(), dy),
            ),
            end: Point(clamped_shift_exec(self.end.x(), dx), clamped_shift_exec(self.end.y(), dy)),
        }
    }

    /// The region moved by the coordinates of `point`, each taken as an `i32`.
    pub fn translated_by(&self, point: Point) -> (r: Region)
        requires
            self.can_translate(point.0 as i32, point.1 as i32),
        ensures
            r == self.spec_translated(point.0 as i32, point.1 as i32),
    {
        self.translated(point.x() as i32, point.y() as i32)
    }

    /// Adds `add_x` and `add_y` to the end of the region (saturating); the result must be
    /// valid.
    pub fn enlarged(&self, add_x: i32, add_y: i32) -> (r: Region)
        requires
            self.spec_enlarged(add_x, add_y).valid(),
        ensures
            r == self.spec_enlarged(add_x, add_y),
    {
        Region {
            start: self.start,
            end: Point(saturating_offset_exec(self.end.x(), add_x), saturating_offset_exec(self.end.y(), add_y)),
        }
    }

    /// Like `enlarged`, but about the center: the region is first moved back by half the
    /// amounts (rounded toward zero).
    pub fn resized(&self, add_x: i32, add_y: i32) -> (r: Region)
        requires
            add_x > i32::MIN,
            add_y > i32::MIN,
            self.can_translate(
                half_toward_zero(-add_x) as i32,
                half_toward_zero(-add_y) as i32,
            ),
            self.spec_translated(
                half_toward_zero(-add_x) as i32,
                half_toward_zero(-add_y) as i32,
            ).spec_enlarged(add_x, add_y).valid(),
        ensures
            r == self.spec_translated(
                half_toward_zero(-add_x) as i32,
                half_toward_zero(-add_y) as i32,
            ).spec_enlarged(add_x, add_y),
    {
        let hx = half_toward_zero_exec(-add_x);
        let hy = half_toward_zero_exec(-add_y);
        self.translated(hx, hy).enlarged(add_x, add_y)
    }

    /// The columns of the region, both ends included.
    pub fn x_range(&self) -> (r: std::ops::RangeInclusive<usize>)
        ensures
            r@.start == self.start.0,
            r@.end == self.end.0,
            !r@.exhausted,
    {
        std::ops::RangeInclusive::new(self.start.x(), self.end.x())
    }

    /// The rows of the region, both ends included.
    pub fn y_range(&self) -> (r: std::ops::RangeInclusive<usize>)
        ensures
            r@.start == self.start.1,
            r@.end == self.end.1,
            !r@.exhausted,
    {
        std::ops::RangeInclusive::new(self.start.y(), self.end.y())
    }

    /// The columns of the region, the last one excluded.
    pub fn x_range_without_last(&self) -> (r: std::ops::Range<usize>)
        ensures
            r.start == self.start.0,
            r.end == self.end.0,
    {
        self.start.x()..self.end.x()
    }

    /// The rows of the region, the last one excluded.
    pub fn y_range_without_last(&self) -> (r: std::ops::Range<usize>)
        ensures
            r.start == self.start.1,
            r.end == self.end.1,
    {
        self.start.y()..self.end.y()
    }

    /// Whether this region lies inside `other`.
    pub fn within(&self, other: &Region) -> (r: bool)
        ensures
            r == self.spec_within(*other),
    {
        self.start.x() >= other.start.x() && self.start.y() >= other.start.y() && self.end.x()
            <= other.end.x() && self.end.y() <= other.end.y()
    }

    /// This region cut down to `within`: starts raised and ends lowered to those of `within`.
    pub fn clamped(&self, within: &Region) -> (r: Region)
        ensures
            r == (Region {
                start: Point(
                    if self.start.0 >= within.start.0 {
                        self.start.0
                    } else {
                        within.start.0
                    },
                    if self.start.1 >= within.start.1 {
                        self.start.1
                    } else {
                        within.start.1
                    },
                ),
                end: Point(
                    if self.end.0 <= within.end.0 {
                        self.end.0
                    } else {
                        within.end.0
                    },
                    if self.end.1 <= within.end.1 {
                        self.end.1
                    } else {
                        within.end.1
                    },
                ),
            }),
    {
        Region {
            start: Point(
                if self.start.x() >= within.start.x() {
                    self.start.x()
                } else {
                    within.start.x()
                },
                if self.start.y() >= within.start.y() {
                    self.start.y()
                } else {
                    within.start.y()
                },
            ),
            end: Point(
                if self.end.x() <= within.end.x() {
                    self.end.x()
                } else {
                    within.end.x()
                },
                if self.end.y() <= within.end.y() {
                    self.end.y()
                } else {
                    within.end.y()
                },
            ),
        }
    }

    /// The number of columns (see `spec_width`).
    pub fn width(&self) -> (w: usize)
        requires
            self.end.0 - self.start.0 < usize::MAX,
        ensures
            w == self.spec_width(),
    {
        if self.end.x() < self.start.x() {
            return 0;
        }
        self.end.x() - self.start.x() + 1
    }

    /// The number of rows (see `spec_height`).
    pub fn height(&self) -> (h: usize)
        requires
            self.end.1 - self.start.1 < usize::MAX,
        ensures
            h == self.spec_height(),
    {
        if self.end.y() < self.start.y() {
            return 0;
        }
        self.end.y() - self.start.y() + 1
    }

    /// The numbers of columns and rows.
    pub fn dimensions(&self) -> (d: (usize, usize))
        requires
            self.end.0 - self.start.0 < usize::MAX,
            self.end.1 - self.start.1 < usize::MAX,
        ensures
            d == (self.spec_width() as usize, self.spec_height() as usize),
    {
        (self.width(), self.height())
    }

    /// From minus the width to the width (as `i32`), both included.
    pub fn mirrored_width_range(&self) -> (r: std::ops::RangeInclusive<i32>)
        requires
            self.end.0 - self.start.0 < usize::MAX,
            (self.spec_width() as i32) > i32::MIN,
        ensures
            r@.start == -(self.spec_width() as i32),
            r@.end == self.spec_width() as i32,
            !r@.exhausted,
    {
        let w = self.width() as i32;
        std::ops::RangeInclusive::new(-w, w)
    }

    /// From minus the height to the height (as `i32`), both included.
    pub fn mirrored_height_range(&self) -> (r: std::ops::RangeInclusive<i32>)
        requires
            self.end.1 - self.start.1 < usize::MAX,
            (self.spec_height() as i32) > i32::MIN,
        ensures
            r@.start == -(self.spec_height() as i32),
            r@.end == self.spec_height() as i32,
            !r@.exhausted,
    {
        let h = self.height() as i32;
        std::ops::RangeInclusive::new(-h, h)
    }

    /// Cuts the region in two at half its end coordinate along `along`; both halves hold the
    /// cut line.
    pub fn split(&self, along: Axis) -> (r: (Region, Region))
        ensures
            r == (match along {
                Axis::Horizontal => (
                    Region { start: self.start, end: Point(self.end.0, (self.end.1 / 2) as usize) },
                    Region {
                        start: Point(self.start.0, (self.end.1 / 2) as usize),
                        end: self.end,
                    },
                ),
                Axis::Vertical => (
                    Region { start: self.start, end: Point((self.end.0 / 2) as usize, self.end.1) },
                    Region {
                        start: Point((self.end.0 / 2) as usize, self.start.1),
                        end: self.end,
                    },
                ),
            }),
    {
        match along {
            Axis::Horizontal => (
                Region { start: self.start, end: Point(self.end.x(), self.end.y() / 2) },
                Region { start: Point(self.start.x(), self.end.y() / 2), end: self.end },
            ),
            Axis::Vertical => (
                Region { start: self.start, end: Point(self.end.x() / 2, self.end.y()) },
                Region { start: Point(self.end.x() / 2, self.start.y()), end: self.end },
            ),
        }
    }

    /// The offset of this region's start from `rhs`'s start, each coordinate as an `i32`.
    pub open spec fn spec_offset(self, rhs: Region) -> (int, int) {
        (
            (self.start.0 as i32) - (rhs.start.0 as i32),
            (self.start.1 as i32) - (rhs.start.1 as i32),
        )
    }

    /// Appends the text of this region.
    pub fn write_text(&self, out: &mut String)
        ensures
            final(out)@ == old(out)@ + region_text(*self),
    {
        push_char(out, '[');
        self.start.write_text(out);
        push_char(out, ',');
        self.end.write_text(out);
        push_char(out, ']');
        assert(final(out)@ =~= old(out)@ + region_text(*self));
    }

    /// The id of the clip path that clips to this region: `clip-`, the start, `-`, the end.
    pub fn clip_path_id(&self) -> (s: String)
        ensures
            s@ == seq!['c', 'l', 'i', 'p', '-'] + point_text(self.start) + seq!['-'] + point_text(
                self.end,
            ),
    {
        let mut s = String::new();
        push_char(&mut s, 'c');
        push_char(&mut s, 'l');
        push_char(&mut s, 'i');
        push_char(&mut s, 'p');
        push_char(&mut s, '-');
        self.start.write_text(&mut s);
        push_char(&mut s, '-');
        self.end.write_text(&mut s);
        assert(s@ =~= seq!['c', 'l', 'i', 'p', '-'] + point_text(self.start) + seq!['-']
            + point_text(self.end));
        s
    }

    /// The text of this region: `[(x, y),(x, y)]`.
    pub fn to_string(&self) -> (s: String)
        ensures
            s@ == region_text(*self),
    {
        let mut s = String::new();
        self.write_text(&mut s);
        assert(s@ =~= region_text(*self));
        s
    }
}

fn half_toward_zero_exec(v: i32) -> (r: i32)
    ensures
        r == half_toward_zero(v as int),
{
    if v >= 0 {
        v / 2
    } else {
        let m = ((-(v as i64)) / 2) as i32;
        -m
    }
}

impl std::ops::Sub for Region {
    type Output = (i32, i32);

    /// The offset of this region's start from `rhs`'s start (see `spec_offset`).
    fn sub(self, rhs: Region) -> (r: (i32, i32)) {
        ((self.start.x() as i32) - (rhs.start.x() as i32), (self.start.y() as i32) - (
        rhs.start.y() as i32))
    }
}

impl vstd::std_specs::ops::SubSpecImpl for Region {
    open spec fn obeys_sub_spec() -> bool {
        true
    }

    open spec fn sub_req(self, rhs: Region) -> bool {
        &&& i32::MIN <= self.spec_offset(rhs).0 <= i32::MAX
        &&& i32::MIN <= self.spec_offset(rhs).1 <= i32::MAX
    }

    open spec fn sub_spec(self, rhs: Region) -> (i32, i32) {
        (self.spec_offset(rhs).0 as i32, self.spec_offset(rhs).1 as i32)
    }
}

impl From<(Point, Point)> for Region {
    fn from(value: (Point, Point)) -> (r: Region)
        ensures
            r == (Region { start: value.0, end: value.1 }),
    {
        Region { start: value.0, end: value.1 }
    }
}

impl vstd::std_specs::convert::FromSpecImpl<(Point, Point)> for Region {
    open spec fn obeys_from_spec() -> bool {
        true
    }

    open spec fn from_spec(value: (Point, Point)) -> Region {
        Region { start: value.0, end: value.1 }
    }
}

} // verus!
