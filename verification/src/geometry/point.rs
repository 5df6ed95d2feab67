//! Points of the grid.
use vstd::prelude::*;
use crate::geometry::region::Region;
use crate::text::{decimal, push_char, write_decimal};

verus! {

/// A point of the grid, by column and row.
#[derive(Debug, Clone, Copy, PartialEq, Eq, Structural)]
pub struct Point(pub usize, pub usize);

/// A coordinate moved by a signed offset the way `(c as i32 + d) as usize` does: the
/// coordinate is truncated to 32 bits, offset, and a negative sum wraps around.
pub open spec fn shifted(c: usize, d: i32) -> usize {
    ((c as i32) + d) as usize
}

/// Moving coordinate `c` by `d` stays within `i32`.
pub open spec fn can_shift(c: usize, d: i32) -> bool {
    i32::MIN <= (c as i32) + d <= i32::MAX
}

/// The text of a point: `(x, y)`.
pub open spec fn point_text(p: Point) -> Seq<char> {
    seq!['('] + decimal(p.0 as nat) + seq![',', ' '] + decimal(p.1 as nat) + seq![')']
}

/// Moves a coordinate by a signed offset, as `(c as i32 + d) as usize` does.
pub fn shift(c: usize, d: i32) -> (r: usize)
    requires
        can_shift(c, d),
    ensures
        r == shifted(c, d),
{
    ((c as i32) + d) as usize
}

impl Default for Point {
    fn default() -> (p: Point)
        ensures
            p == Point(0, 0),
    {
        Point(0, 0)
    }
}

impl Point {
    /// The point moved by `(dx, dy)`.
    pub open spec fn spec_translated(self, dx: i32, dy: i32) -> Point {
        Point(shifted(self.0, dx), shifted(self.1, dy))
    }

    /// Moving by `(dx, dy)` stays within `i32` on both axes.
    pub open spec fn can_translate(self, dx: i32, dy: i32) -> bool {
        can_shift(self.0, dx) && can_shift(self.1, dy)
    }

    /// The region made of this point alone.
    pub fn region(&self) -> (r: Region)
        ensures
            r == (Region { start: *self, end: *self }),
    {
        Region { start: *self, end: *self }
    }

    /// Sets both coordinates.
    pub fn set(&mut self, x: usize, y: usize)
        ensures
            *final(self) == Point(x, y),
    {
        self.0 = x;
        self.1 = y;
    }

    /// Sets the column.
    pub fn set_x(&mut self, x: usize)
        ensures
            *final(self) == Point(x, old(self).1),
    {
        self.0 = x;
    }

    /// The column.
    pub fn x(&self) -> (r: usize)
        ensures
            r == self.0,
    {
        self.0
    }

    /// The row.
    pub fn y(&self) -> (r: usize)
        ensures
            r == self.1,
    {
        self.1
    }

    /// The point moved by `(dx, dy)`; each coordinate goes through `i32`, and a negative
    /// result wraps around.
    pub fn translated(&self, dx: i32, dy: i32) -> (p: Point)
        requires
            self.can_translate(dx, dy),
        ensures
            p == self.spec_translated(dx, dy),
    {
        Point(shift(self.0, dx), shift(self.1, dy))
    }

    /// The point moved by the coordinates of `point`.
    pub fn translated_by(&self, point: Point) -> (p: Point)
        requires
            self.0 + point.0 <= usize::MAX,
            self.1 + point.1 <= usize::MAX,
        ensures
            p == Point((self.0 + point.0) as usize, (self.1 + point.1) as usize),
    {
        Point(self.0 + point.0, self.1 + point.1)
    }

    /// Moves this point by `(dx, dy)` (see `translated`).
    pub fn translate(&mut self, dx: i32, dy: i32)
        requires
            old(self).can_translate(dx, dy),
        ensures
            *final(self) == old(self).spec_translated(dx, dy),
    {
        *self = self.translated(dx, dy);
    }

    /// The number of columns and rows spanned from this point to `other`, both ends included.
    pub fn distance_to(&self, other: &Point) -> (d: (usize, usize))
        requires
            self.0 - other.0 < usize::MAX,
            other.0 - self.0 < usize::MAX,
            self.1 - other.1 < usize::MAX,
            other.1 - self.1 < usize::MAX,
        ensures
            d.0 == (if self.0 >= other.0 {
                self.0 - other.0
            } else {
                other.0 - self.0
            }) + 1,
            d.1 == (if self.1 >= other.1 {
                self.1 - other.1
            } else {
                other.1 - self.1
            }) + 1,
    {
        let dx = if self.0 >= other.0 {
            self.0 - other.0
        } else {
            other.0 - self.0
        };
        let dy = if self.1 >= other.1 {
            self.1 - other.1
        } else {
            other.1 - self.1
        };
        (dx + 1, dy + 1)
    }

    /// Appends the text of this point.
    pub fn write_text(&self, out: &mut String)
        ensures
            final(out)@ == old(out)@ + point_text(*self),
    {
        push_char(out, '(');
        write_decimal(out, self.0 as u128);
        push_char(out, ',');
        push_char(out, ' ');
        write_decimal(out, self.1 as u128);
        push_char(out, ')');
        assert(final(out)@ =~= old(out)@ + point_text(*self));
    }

    /// The text of this point: `(x, y)`.
    pub fn to_string(&self) -> (s: String)
        ensures
            s@ == point_text(*self),
    {
        let mut s = String::new();
        self.write_text(&mut s);
        assert(s@ =~= point_text(*self));
        s
    }
}

impl From<(usize, usize)> for Point {
    fn from(value: (usize, usize)) -> (p: Point)
        ensures
            p == Point(value.0, value.1),
    {
        Point(value.0, value.1)
    }
}

impl vstd::std_specs::convert::FromSpecImpl<(usize, usize)> for Point {
    open spec fn obeys_from_spec() -> bool {
        true
    }

    open spec fn from_spec(value: (usize, usize)) -> Point {
        Point(value.0, value.1)
    }
}

impl From<(i32, i32)> for Point {
    fn from(value: (i32, i32)) -> (p: Point)
        ensures
            p == Point(value.0 as usize, value.1 as usize),
    {
        Point(value.0 as usize, value.1 as usize)
    }
}

impl vstd::std_specs::convert::FromSpecImpl<(i32, i32)> for Point {
    open spec fn obeys_from_spec() -> bool {
        true
    }

    open spec fn from_spec(value: (i32, i32)) -> Point {
        Point(value.0 as usize, value.1 as usize)
    }
}

} // verus!
