//! Layers, shapes and regions of a canvas drawn at random.
use vstd::prelude::*;
use rand::rngs::StdRng;
use std::ops::Range;
use crate::geometry::region::Region;
use crate::graphics::canvas::Canvas;
use crate::graphics::fill::Fill;
use crate::graphics::layer::{lemma_decimal_injective, names_distinct, Layer};
use crate::graphics::objects::Object;
use crate::graphics::shapes::{segment_anchor, LineSegment, Shape};
use crate::random::objects::{drawable, is_random_curve, is_random_shape};
use crate::random::region::is_end_for;
use crate::random::source::{random_in, random_ratio};
use crate::text::{decimal, push_char, write_decimal, write_str};
use crate::geometry::point::Point;

verus! {

/// The name of the `i`-th object of a layer drawn at random: the layer's name, `#`, `i`.
pub open spec fn numbered_name(prefix: Seq<char>, i: nat) -> Seq<char> {
    prefix + seq!['#'] + decimal(i)
}

/// `layer` holds `count` curves or lines drawn in `region`, named after `name` and numbered
/// from 0, each unfilled or filled with a solid color other than `background`.
pub open spec fn random_curves_layer(
    layer: Layer,
    name: Seq<char>,
    count: int,
    region: Region,
    width: crate::graphics::scalar::Scalar,
    background: Option<crate::graphics::color::Color>,
) -> bool {
    &&& layer.name@ == name
    &&& !layer.hidden
    &&& layer.wf()
    &&& layer.objects@.len() == count
    &&& forall|i: int|
        0 <= i < count ==> {
            let (n, o) = #[trigger] layer.objects@[i];
            &&& n@ == numbered_name(name, i as nat)
            &&& exists|start: Point|
                region.spec_contains(start) && #[trigger] is_random_curve(o.shape, start, region, width)
            &&& o.fill matches Some(f) ==> f is Solid && (background matches Some(c) ==> f != Fill::Solid(c))
            &&& o.filters@.len() == 0
            &&& o.tags@.len() == 0
        }
}

/// The numbered name `prefix#i`.
fn numbered(prefix: &str, i: usize) -> (s: String)
    ensures
        s@ == numbered_name(prefix@, i as nat),
{
    let mut s = String::new();
    write_str(&mut s, prefix);
    push_char(&mut s, '#');
    write_decimal(&mut s, i as u128);
    assert(s@ =~= numbered_name(prefix@, i as nat));
    s
}

/// Numbered names differ when their numbers do.
proof fn lemma_numbered_injective(prefix: Seq<char>, i: nat, j: nat)
    requires
        numbered_name(prefix, i) == numbered_name(prefix, j),
    ensures
        i == j,
{
    let k = prefix.len() + 1;
    assert(numbered_name(prefix, i).skip(k as int) =~= decimal(i));
    assert(numbered_name(prefix, j).skip(k as int) =~= decimal(j));
    lemma_decimal_injective(i, j);
}

impl Canvas {
    /// A shape drawn at random within `region` with the canvas's line width and polygon
    /// sizes (see `Shape::random`).
    pub fn random_object_within(&mut self, rng: &mut StdRng, region: &Region) -> (s: Shape)
        requires
            drawable(*region),
            old(self).polygon_vertices_range.start < old(self).polygon_vertices_range.end,
        ensures
            *final(self) == *old(self),
            exists|start: Point|
                region.spec_contains(start) && #[trigger] is_random_shape(
                    s,
                    start,
                    *region,
                    old(self).object_sizes.default_line_width,
                    old(self).polygon_vertices_range,
                ),
    {
        let range = Range {
            start: self.polygon_vertices_range.start,
            end: self.polygon_vertices_range.end,
        };
        Shape::random(rng, region, self.object_sizes.default_line_width, range)
    }

    /// A shape drawn at random within the world region (see `random_object_within`).
    pub fn random_object(&mut self, rng: &mut StdRng) -> (s: Shape)
        requires
            drawable(old(self).world_region),
            old(self).polygon_vertices_range.start < old(self).polygon_vertices_range.end,
        ensures
            *final(self) == *old(self),
            exists|start: Point|
                old(self).world_region.spec_contains(start) && #[trigger] is_random_shape(
                    s,
                    start,
                    old(self).world_region,
                    old(self).object_sizes.default_line_width,
                    old(self).polygon_vertices_range,
                ),
    {
        let region = self.world_region;
        self.random_object_within(rng, &region)
    }

    /// A layer named `layer_name` of `count` curves or lines drawn in `region`, each
    /// unfilled or, one time in two, filled with a solid color other than the background (see
    /// `random_curves_layer`).
    pub fn n_random_curves_within(
        &mut self,
        rng: &mut StdRng,
        region: &Region,
        count: usize,
        layer_name: &str,
    ) -> (l: Layer)
        requires
            drawable(*region),
        ensures
            *final(self) == *old(self),
            l.object_sizes == old(self).object_sizes,
            random_curves_layer(
                l,
                layer_name@,
                count as int,
                *region,
                old(self).object_sizes.default_line_width,
                old(self).background,
            ),
    {
        let mut objects: Vec<(String, Object)> = Vec::new();
        let mut i: usize = 0;
        while i < count
            invariant
                drawable(*region),
                i <= count,
                objects@.len() == i,
                forall|j: int|
                    0 <= j < i ==> {
                        let (n, o) = #[trigger] objects@[j];
                        &&& n@ == numbered_name(layer_name@, j as nat)
                        &&& exists|start: Point|
                            region.spec_contains(start) && #[trigger] is_random_curve(
                                o.shape,
                                start,
                                *region,
                                self.object_sizes.default_line_width,
                            )
                        &&& o.fill matches Some(f) ==> f is Solid && (self.background matches Some(
                            c,
                        ) ==> f != Fill::Solid(c))
                        &&& o.filters@.len() == 0
                        &&& o.tags@.len() == 0
                    },
            decreases count - i,
        {
            let object = Shape::random_curve_within(rng, region, self.object_sizes.default_line_width);
            let fill = if random_ratio(rng, 1, 2) {
                Some(Fill::random_solid(rng, self.background))
            } else {
                None
            };
            let name = numbered(layer_name, i);
            objects.push((name, Object::from((object, fill))));
            i = i + 1;
        }
        let layer = Layer {
            object_sizes: self.object_sizes,
            name: String::from_str(layer_name),
            objects,
            hidden: false,
        };
        proof {
            assert forall|a: int, b: int|
                0 <= a < layer.objects@.len() && 0 <= b < layer.objects@.len() && a
                    != b implies layer.objects@[a].0@ != layer.objects@[b].0@ by {
                if layer.objects@[a].0@ == layer.objects@[b].0@ {
                    assert(layer.objects@[a].0@ == numbered_name(layer_name@, a as nat));
                    assert(layer.objects@[b].0@ == numbered_name(layer_name@, b as nat));
                    lemma_numbered_injective(layer_name@, a as nat, b as nat);
                }
            }
            assert(names_distinct(layer.objects@));
        }
        layer
    }

    /// A layer of curves or lines drawn in `region`, as many as drawn at random from
    /// `object_counts` (see `n_random_curves_within`).
    pub fn random_curves_within(
        &mut self,
        rng: &mut StdRng,
        layer_name: &str,
        region: &Region,
        object_counts: Range<usize>,
    ) -> (l: Layer)
        requires
            drawable(*region),
            object_counts.start < object_counts.end,
        ensures
            *final(self) == *old(self),
            l.object_sizes == old(self).object_sizes,
            exists|count: int|
                object_counts.start <= count < object_counts.end && #[trigger] random_curves_layer(
                    l,
                    layer_name@,
                    count,
                    *region,
                    old(self).object_sizes.default_line_width,
                    old(self).background,
                ),
    {
        let number_of_objects = random_in(rng, object_counts.start, object_counts.end);
        self.n_random_curves_within(rng, region, number_of_objects, layer_name)
    }

    /// A layer of curves or lines drawn in the world region, as many as the canvas's object
    /// count range allows (see `random_curves_within`).
    pub fn random_linelikes(&mut self, rng: &mut StdRng, layer_name: &str) -> (l: Layer)
        requires
            drawable(old(self).world_region),
            old(self).objects_count_range.start < old(self).objects_count_range.end,
        ensures
            *final(self) == *old(self),
            l.object_sizes == old(self).object_sizes,
            exists|count: int|
                old(self).objects_count_range.start <= count < old(self).objects_count_range.end
                    && #[trigger] random_curves_layer(
                    l,
                    layer_name@,
                    count,
                    old(self).world_region,
                    old(self).object_sizes.default_line_width,
                    old(self).background,
                ),
    {
        let region = self.world_region;
        let counts = Range { start: self.objects_count_range.start, end: self.objects_count_range.end };
        self.random_curves_within(rng, layer_name, &region, counts)
    }

    /// A region of the world region drawn at random (see `Region::random`).
    pub fn random_region(&mut self, rng: &mut StdRng) -> (r: Region)
        requires
            drawable(old(self).world_region),
        ensures
            *final(self) == *old(self),
            exists|start: Point, end: Point|
                #![trigger is_end_for(old(self).world_region, start, end)]
                old(self).world_region.spec_contains(start) && is_end_for(
                    old(self).world_region,
                    start,
                    end,
                ) && r == (if start.0 > end.0 {
                    Region { start: end, end: start }
                } else {
                    Region { start: start, end: end }
                }),
    {
        let region = self.world_region;
        Region::random(rng, &region)
    }
    /// A curve or a line drawn at random in `region`, with the canvas's line width (see
    /// `Shape::random_curve_within`).
    pub fn random_linelike_within(&self, rng: &mut StdRng, region: &Region) -> (s: Shape)
        requires
            drawable(*region),
        ensures
            exists|start: Point|
                region.spec_contains(start) && #[trigger] is_random_curve(
                    s,
                    start,
                    *region,
                    self.object_sizes.default_line_width,
                ),
    {
        Shape::random_curve_within(rng, region, self.object_sizes.default_line_width)
    }

    /// An end drawn at random for a shape drawn from `start` in `region` (see
    /// `Region::random_end`).
    pub fn random_end_anchor(&self, rng: &mut StdRng, start: Point, region: &Region) -> (p: Point)
        requires
            crate::random::region::small_enough(*region, start),
            exists|x: int, y: int| crate::random::region::is_end_candidate(*region, start, x, y),
        ensures
            is_end_for(*region, start, p),
    {
        region.random_end(rng, start)
    }

    /// A side ending at `end`, of a kind drawn at random (see `Shape::random_line_segment`).
    pub fn random_line(&self, rng: &mut StdRng, end: Point) -> (s: LineSegment)
        ensures
            segment_anchor(s) == end,
    {
        Shape::random_line_segment(rng, end)
    }

    /// A layer of curves or lines drawn in `region`, as many as the canvas's object count
    /// range allows (see `random_curves_within`).
    pub fn random_linelikes_within(&mut self, rng: &mut StdRng, layer_name: &str, region: &Region) -> (l:
        Layer)
        requires
            drawable(*region),
            old(self).objects_count_range.start < old(self).objects_count_range.end,
        ensures
            *final(self) == *old(self),
            l.object_sizes == old(self).object_sizes,
            exists|count: int|
                old(self).objects_count_range.start <= count < old(self).objects_count_range.end
                    && #[trigger] random_curves_layer(
                    l,
                    layer_name@,
                    count,
                    *region,
                    old(self).object_sizes.default_line_width,
                    old(self).background,
                ),
    {
        let counts = Range { start: self.objects_count_range.start, end: self.objects_count_range.end };
        self.random_curves_within(rng, layer_name, region, counts)
    }
}

} // verus!
