//! Objects: shapes with their fill, filters, transformations, tags and clipping.
use vstd::prelude::*;
use crate::geometry::point::Point;
use crate::geometry::region::Region;
use crate::graphics::color::Color;
use crate::graphics::fill::{opacified, Fill, FillOperations};
use crate::graphics::filter::Filter;
use crate::graphics::scalar::{Angle, Scalar};
use crate::graphics::shapes::Shape;
use crate::graphics::transform::Transformation;
use crate::text::text_eq;

verus! {

/// A shape with its styling.
#[derive(Debug)]
pub struct Object {
    pub shape: Shape,
    pub fill: Option<Fill>,
    pub filters: Vec<Filter>,
    pub transformations: Vec<Transformation>,
    pub tags: Vec<String>,
    pub clip_to: Option<Region>,
}

/// The default sizes of the parts of objects.
#[derive(Debug, Clone, Copy, PartialEq, Eq, Structural)]
pub struct ObjectSizes {
    pub empty_shape_stroke_width: Scalar,
    pub small_circle_radius: Scalar,
    pub dot_radius: Scalar,
    pub default_line_width: Scalar,
}

/// A stroke of 0.5, small circles of radius 5, dots of radius 2 and lines 2 wide.
pub open spec fn default_sizes() -> ObjectSizes {
    ObjectSizes {
        empty_shape_stroke_width: Scalar(0x3F00_0000),
        small_circle_radius: Scalar(0x40A0_0000),
        dot_radius: Scalar(0x4000_0000),
        default_line_width: Scalar(0x4000_0000),
    }
}

impl Default for ObjectSizes {
    /// A stroke of 0.5, small circles of radius 5, dots of radius 2 and lines 2 wide.
    fn default() -> (s: ObjectSizes)
        ensures
            s == default_sizes(),
    {
        ObjectSizes {
            empty_shape_stroke_width: Scalar::half(),
            small_circle_radius: Scalar::five(),
            dot_radius: Scalar::two(),
            default_line_width: Scalar::two(),
        }
    }
}

/// The texts of a list of tags.
pub open spec fn tags_view(tags: Seq<String>) -> Seq<Seq<char>> {
    tags.map_values(|t: String| t@)
}

/// Whether a transformation is a rotation.
pub open spec fn is_rotation(t: Transformation) -> bool {
    t is Rotate
}

impl Object {
    /// The object's tags as texts.
    pub open spec fn tag_texts(&self) -> Seq<Seq<char>> {
        tags_view(self.tags@)
    }

    /// `self` and `other` agree on every field but the fill.
    pub open spec fn same_but_fill(&self, other: Object) -> bool {
        &&& other.shape == self.shape
        &&& other.filters == self.filters
        &&& other.transformations == self.transformations
        &&& other.tags == self.tags
        &&& other.clip_to == self.clip_to
    }

    /// `self` and `other` agree on every field but the filters.
    pub open spec fn same_but_filters(&self, other: Object) -> bool {
        &&& other.shape == self.shape
        &&& other.fill == self.fill
        &&& other.transformations == self.transformations
        &&& other.tags == self.tags
        &&& other.clip_to == self.clip_to
    }

    /// `self` and `other` agree on every field but the transformations.
    pub open spec fn same_but_transformations(&self, other: Object) -> bool {
        &&& other.shape == self.shape
        &&& other.fill == self.fill
        &&& other.filters == self.filters
        &&& other.tags == self.tags
        &&& other.clip_to == self.clip_to
    }

    /// `self` and `other` agree on every field but the tags.
    pub open spec fn same_but_tags(&self, other: Object) -> bool {
        &&& other.shape == self.shape
        &&& other.fill == self.fill
        &&& other.filters == self.filters
        &&& other.transformations == self.transformations
        &&& other.clip_to == self.clip_to
    }
}

impl Shape {
    /// An object of this shape with the given fill.
    pub fn filled(self, fill: Fill) -> (o: Object)
        ensures
            o.shape == self,
            o.fill == Some(fill),
            o.filters@.len() == 0,
            o.transformations@.len() == 0,
            o.tags@.len() == 0,
            o.clip_to is None,
    {
        Object::from((self, Some(fill)))
    }

    /// An object of this shape filled with a solid color.
    pub fn colored(self, color: Color) -> (o: Object)
        ensures
            o.shape == self,
            o.fill == Some(Fill::Solid(color)),
            o.filters@.len() == 0,
            o.transformations@.len() == 0,
            o.tags@.len() == 0,
            o.clip_to is None,
    {
        Object::from((self, None)).colored(color)
    }

    /// An unfilled object of this shape with one filter.
    pub fn filtered(self, filter: Filter) -> (o: Object)
        ensures
            o.shape == self,
            o.fill is None,
            o.filters@ == seq![filter],
            o.transformations@.len() == 0,
            o.tags@.len() == 0,
            o.clip_to is None,
    {
        let o = Object::from((self, None)).filtered(filter);
        assert(o.filters@ =~= seq![filter]);
        o
    }

    /// An unfilled object of this shape with one transformation.
    pub fn transform(self, transformation: Transformation) -> (o: Object)
        ensures
            o.shape == self,
            o.fill is None,
            o.filters@.len() == 0,
            o.transformations@ == seq![transformation],
            o.tags@.len() == 0,
            o.clip_to is None,
    {
        let o = Object::from((self, None)).transformed(transformation);
        assert(o.transformations@ =~= seq![transformation]);
        o
    }
}

impl Object {
    /// The object with `filter` added after its filters.
    pub fn filtered(self, filter: Filter) -> (o: Object)
        ensures
            self.same_but_filters(o),
            o.filters@ == self.filters@.push(filter),
    {
        let mut o = self;
        o.filters.push(filter);
        o
    }

    /// The object with `transformation` added after its transformations.
    pub fn transformed(self, transformation: Transformation) -> (o: Object)
        ensures
            self.same_but_transformations(o),
            o.transformations@ == self.transformations@.push(transformation),
    {
        let mut o = self;
        o.transformations.push(transformation);
        o
    }

    /// The object with the given fill.
    pub fn filled(self, fill: Fill) -> (o: Object)
        ensures
            self.same_but_fill(o),
            o.fill == Some(fill),
    {
        let mut o = self;
        o.fill = Some(fill);
        o
    }

    /// The object filled with a solid color.
    pub fn colored(self, color: Color) -> (o: Object)
        ensures
            self.same_but_fill(o),
            o.fill == Some(Fill::Solid(color)),
    {
        let mut o = self;
        o.fill = Some(Fill::Solid(color));
        o
    }

    /// The object with its fill at `opacity` (see `opacified`); no fill stays none.
    pub fn opacified(self, opacity: Scalar) -> (o: Object)
        ensures
            self.same_but_fill(o),
            o.fill == match self.fill {
                Some(f) => Some(opacified(f, opacity)),
                None => None,
            },
    {
        let mut o = self;
        o.fill = o.fill.opacify(opacity);
        o
    }

    /// The object clipped to `region`.
    pub fn clipped_to(self, region: Region) -> (o: Object)
        ensures
            o.shape == self.shape,
            o.fill == self.fill,
            o.filters == self.filters,
            o.transformations == self.transformations,
            o.tags == self.tags,
            o.clip_to == Some(region),
    {
        let mut o = self;
        o.clip_to = Some(region);
        o
    }

    /// Removes all filters.
    pub fn clear_filters(&mut self)
        ensures
            old(self).same_but_filters(*final(self)),
            final(self).filters@.len() == 0,
    {
        self.filters.clear();
    }

    /// Sets the fill.
    pub fn refill(&mut self, fill: Fill)
        ensures
            old(self).same_but_fill(*final(self)),
            final(self).fill == Some(fill),
    {
        self.fill = Some(fill);
    }

    /// Fills with a solid color.
    pub fn recolor(&mut self, color: Color)
        ensures
            old(self).same_but_fill(*final(self)),
            final(self).fill == Some(Fill::Solid(color)),
    {
        self.fill = Some(Fill::Solid(color));
    }

    /// Adds a filter after the others.
    pub fn filter(&mut self, filter: Filter)
        ensures
            old(self).same_but_filters(*final(self)),
            final(self).filters@ == old(self).filters@.push(filter),
    {
        self.filters.push(filter);
    }

    /// Adds a rotation by `angle` after the other transformations.
    pub fn rotate(&mut self, angle: Angle)
        ensures
            old(self).same_but_transformations(*final(self)),
            final(self).transformations@ == old(self).transformations@.push(
                Transformation::Rotate(angle.0),
            ),
    {
        self.transformations.push(Transformation::Rotate(angle.degrees()));
    }

    /// Replaces any rotations by one rotation by `angle`, after the other transformations.
    pub fn set_rotation(&mut self, angle: Angle)
        ensures
            old(self).same_but_transformations(*final(self)),
            final(self).transformations@ == old(self).transformations@.filter(
                |t: Transformation| !is_rotation(t),
            ).push(Transformation::Rotate(angle.0)),
    {
        let ghost pred = |t: Transformation| !is_rotation(t);
        let ghost original = self.transformations@;
        let mut kept: Vec<Transformation> = Vec::new();
        let mut i: usize = 0;
        while i < self.transformations.len()
            invariant
                i <= self.transformations@.len(),
                self.transformations@ == original,
                pred == (|t: Transformation| !is_rotation(t)),
                kept@ == original.take(i as int).filter(pred),
            decreases original.len() - i,
        {
            proof {
                assert(original.take(i + 1) =~= original.take(i as int).push(original[i as int]));
                original.take(i as int).lemma_filter_push(original[i as int], pred);
            }
            let t = self.transformations[i];
            match t {
                Transformation::Rotate(_) => {},
                _ => {
                    kept.push(t);
                },
            }
            i = i + 1;
        }
        proof {
            assert(original.take(original.len() as int) =~= original);
        }
        kept.push(Transformation::Rotate(angle.degrees()));
        self.transformations = kept;
    }

    /// The region of the shape.
    pub fn region(&self) -> (r: Region)
        requires
            self.shape.has_region(),
        ensures
            r == self.shape.spec_region(),
    {
        self.shape.region()
    }

    /// The anchor point of the shape.
    pub fn position(&self) -> (p: Point)
        requires
            !(self.shape is RawSVG),
        ensures
            p == self.shape.spec_position(),
    {
        self.shape.position()
    }

    /// Adds a tag after the others, and returns it.
    pub fn tag(&mut self, tag: &str) -> (t: String)
        ensures
            old(self).same_but_tags(*final(self)),
            final(self).tag_texts() == old(self).tag_texts().push(tag@),
            t@ == tag@,
    {
        let t = String::from_str(tag);
        self.tags.push(t.clone());
        assert(self.tag_texts() =~= old(self).tag_texts().push(tag@));
        t
    }

    /// Removes every occurrence of a tag.
    pub fn remove_tag(&mut self, tag: &str)
        ensures
            old(self).same_but_tags(*final(self)),
            final(self).tag_texts() == old(self).tag_texts().filter(|t: Seq<char>| t != tag@),
    {
        let ghost pred = |t: Seq<char>| t != tag@;
        let ghost original = self.tag_texts();
        let mut kept: Vec<String> = Vec::new();
        let mut i: usize = 0;
        while i < self.tags.len()
            invariant
                i <= self.tags@.len(),
                original == tags_view(self.tags@),
                pred == (|t: Seq<char>| t != tag@),
                tags_view(kept@) == original.take(i as int).filter(pred),
            decreases self.tags@.len() - i,
        {
            proof {
                assert(original.take(i + 1) =~= original.take(i as int).push(original[i as int]));
                original.take(i as int).lemma_filter_push(original[i as int], pred);
            }
            if !text_eq(self.tags[i].as_str(), tag) {
                let ghost before = kept@;
                kept.push(self.tags[i].clone());
                proof {
                    assert(tags_view(kept@) =~= tags_view(before).push(original[i as int]));
                }
            }
            i = i + 1;
        }
        proof {
            assert(original.take(original.len() as int) =~= original);
        }
        self.tags = kept;
    }

    /// The object with a tag added after the others.
    pub fn tagged(self, tag: &str) -> (o: Object)
        ensures
            self.same_but_tags(o),
            o.tag_texts() == self.tag_texts().push(tag@),
    {
        let mut o = self;
        o.tags.push(String::from_str(tag));
        assert(o.tag_texts() =~= self.tag_texts().push(tag@));
        o
    }

    /// Whether the object has the tag.
    pub fn has_tag(&self, tag: &str) -> (r: bool)
        ensures
            r == self.tag_texts().contains(tag@),
    {
        let mut i: usize = 0;
        while i < self.tags.len()
            invariant
                i <= self.tags@.len(),
                forall|j: int| 0 <= j < i ==> self.tag_texts()[j] != tag@,
            decreases self.tags@.len() - i,
        {
            if text_eq(self.tags[i].as_str(), tag) {
                assert(self.tag_texts()[i as int] == tag@);
                return true;
            }
            i = i + 1;
        }
        false
    }
}

impl From<Shape> for Object {
    fn from(value: Shape) -> (o: Object)
        ensures
            o.shape == value,
            o.fill is None,
            o.filters@.len() == 0,
            o.transformations@.len() == 0,
            o.tags@.len() == 0,
            o.clip_to is None,
    {
        Object {
            shape: value,
            fill: None,
            filters: Vec::new(),
            transformations: Vec::new(),
            tags: Vec::new(),
            clip_to: None,
        }
    }
}

impl From<(Shape, Option<Fill>)> for Object {
    fn from(value: (Shape, Option<Fill>)) -> (o: Object)
        ensures
            o.shape == value.0,
            o.fill == value.1,
            o.filters@.len() == 0,
            o.transformations@.len() == 0,
            o.tags@.len() == 0,
            o.clip_to is None,
    {
        let (shape, fill) = value;
        Object {
            shape,
            fill,
            filters: Vec::new(),
            transformations: Vec::new(),
            tags: Vec::new(),
            clip_to: None,
        }
    }
}

impl vstd::std_specs::convert::FromSpecImpl<Shape> for Object {
    /// The conversion's outcome is stated on `from` itself, since an object's lists have no
    /// value in specifications.
    open spec fn obeys_from_spec() -> bool {
        false
    }

    open spec fn from_spec(value: Shape) -> Object {
        arbitrary()
    }
}

impl vstd::std_specs::convert::FromSpecImpl<(Shape, Option<Fill>)> for Object {
    /// The conversion's outcome is stated on `from` itself, since an object's lists have no
    /// value in specifications.
    open spec fn obeys_from_spec() -> bool {
        false
    }

    open spec fn from_spec(value: (Shape, Option<Fill>)) -> Object {
        arbitrary()
    }
}

} // verus!
