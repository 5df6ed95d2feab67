//! The canvas: a grid of cells and a stack of named layers drawn on it.
use vstd::prelude::*;
use std::ops::Range;
use crate::fonts::FontOptions;
use crate::geometry::point::Point;
use crate::geometry::region::{region_text, Region};
use crate::graphics::color::{is_default_colormap, Color, ColorMapping};
use crate::graphics::fill::Fill;
use crate::graphics::layer::{
    default_layer, lemma_set_keeps_others, remove_outcome, set_outcome, Layer,
};
use crate::graphics::scalar::Scalar;
use crate::graphics::shapes::Shape;
use crate::text::write_str;
use crate::graphics::objects::{default_sizes, Object, ObjectSizes};
use crate::text::text_eq;

verus! {

/// A grid of `grid_size` cells of `cell_size` pixels, with layers drawn from the last
/// (bottom) to the first (top).
#[derive(Debug)]
pub struct Canvas {
    pub grid_size: (usize, usize),
    pub cell_size: usize,
    pub objects_count_range: Range<usize>,
    pub polygon_vertices_range: Range<usize>,
    pub canvas_outter_padding: usize,
    pub object_sizes: ObjectSizes,
    pub font_options: FontOptions,
    pub colormap: ColorMapping,
    /// The layers in order of top to bottom: the first is drawn over the second, and so on.
    pub layers: Vec<Layer>,
    pub background: Option<Color>,
    pub world_region: Region,
}

/// The index of the first element equal to `x`, or -1.
pub open spec fn first_index<T>(s: Seq<T>, x: T) -> int
    decreases s.len(),
{
    if s.len() == 0 {
        -1
    } else if s[0] == x {
        0
    } else {
        let r = first_index(s.drop_first(), x);
        if r < 0 {
            -1
        } else {
            r + 1
        }
    }
}

pub proof fn lemma_first_index<T>(s: Seq<T>, x: T)
    ensures
        -1 <= first_index(s, x) < s.len(),
        first_index(s, x) >= 0 ==> s[first_index(s, x)] == x && forall|j: int|
            0 <= j < first_index(s, x) ==> s[j] != x,
        first_index(s, x) == -1 <==> !s.contains(x),
    decreases s.len(),
{
    if s.len() > 0 && s[0] != x {
        lemma_first_index(s.drop_first(), x);
        let r = first_index(s.drop_first(), x);
        if r >= 0 {
            assert(s[r + 1] == s.drop_first()[r]);
            assert forall|j: int| 0 <= j < r + 1 implies s[j] != x by {
                if j > 0 {
                    assert(s[j] == s.drop_first()[j - 1]);
                }
            }
        } else {
            if s.contains(x) {
                let j = choose|j: int| 0 <= j < s.len() && s[j] == x;
                assert(s.drop_first()[j - 1] == x);
            }
        }
    } else if s.len() > 0 {
        assert(s.contains(x)) by {
            assert(s[0] == x);
        }
    }
}

/// The first index holding `x`, when one is known.
pub proof fn lemma_first_index_of(s: Seq<Seq<char>>, x: Seq<char>, i: int)
    requires
        0 <= i < s.len(),
        s[i] == x,
        forall|j: int| 0 <= j < i ==> s[j] != x,
    ensures
        first_index(s, x) == i,
{
    lemma_first_index(s, x);
    assert(s.contains(x));
}

/// The names of a list of layers.
pub open spec fn layer_names(s: Seq<Layer>) -> Seq<Seq<char>> {
    s.map_values(|l: Layer| l.name@)
}

/// The index of the first layer named `k`, or -1.
pub open spec fn layer_index(s: Seq<Layer>, k: Seq<char>) -> int {
    first_index(layer_names(s), k)
}

pub proof fn lemma_layer_index(s: Seq<Layer>, k: Seq<char>)
    ensures
        -1 <= layer_index(s, k) < s.len(),
        layer_index(s, k) >= 0 ==> s[layer_index(s, k)].name@ == k && forall|j: int|
            0 <= j < layer_index(s, k) ==> s[j].name@ != k,
        layer_index(s, k) == -1 <==> forall|j: int| 0 <= j < s.len() ==> s[j].name@ != k,
{
    lemma_first_index(layer_names(s), k);
    let i = layer_index(s, k);
    if i >= 0 {
        assert(layer_names(s)[i] == s[i].name@);
        assert forall|j: int| 0 <= j < i implies s[j].name@ != k by {
            assert(layer_names(s)[j] == s[j].name@);
        }
    }
    if i == -1 {
        assert forall|j: int| 0 <= j < s.len() implies s[j].name@ != k by {
            if s[j].name@ == k {
                assert(layer_names(s)[j] == k);
                assert(layer_names(s).contains(k));
            }
        }
    } else {
        assert(layer_names(s)[i] == k);
    }
}

/// The index of the first layer named `name`.
pub fn find_layer(layers: &Vec<Layer>, name: &str) -> (r: Option<usize>)
    ensures
        match r {
            Some(i) => i as int == layer_index(layers@, name@),
            None => layer_index(layers@, name@) == -1,
        },
{
    proof {
        lemma_layer_index(layers@, name@);
    }
    let mut i: usize = 0;
    while i < layers.len()
        invariant
            i <= layers@.len(),
            forall|j: int| 0 <= j < i ==> layers@[j].name@ != name@,
        decreases layers@.len() - i,
    {
        if text_eq(layers[i].name.as_str(), name) {
            proof {
                assert(layer_names(layers@)[i as int] == name@);
                assert forall|j: int| 0 <= j < i implies layer_names(layers@)[j] != name@ by {
                    assert(layer_names(layers@)[j] == layers@[j].name@);
                }
                lemma_first_index_of(layer_names(layers@), name@, i as int);
            }
            return Some(i);
        }
        i = i + 1;
    }
    None
}

/// The texts of a list of string slices.
pub open spec fn str_views(s: Seq<&str>) -> Seq<Seq<char>> {
    s.map_values(|x: &str| x@)
}

/// One visible, empty layer with default object sizes per name, in order, then a layer named
/// `root` when no name is `root`.
pub open spec fn initial_layers(layers: Seq<Layer>, names: Seq<Seq<char>>) -> bool {
    &&& forall|i: int| 0 <= i < names.len() ==> default_layer(#[trigger] layers[i], names[i])
    &&& names.contains("root"@) ==> layers.len() == names.len()
    &&& !names.contains("root"@) ==> layers.len() == names.len() + 1 && default_layer(
        layers[names.len() as int],
        "root"@,
    )
}

/// Where the layer at `i` goes when reordering by `order`: the first position of its name in
/// `order` when it is listed; after every listed layer, at its own place, when it is not.
pub open spec fn reorder_key(names: Seq<Seq<char>>, order: Seq<Seq<char>>, i: int) -> int {
    if order.contains(names[i]) {
        first_index(order, names[i])
    } else {
        order.len() + i
    }
}

/// In the layers' names `names`, reordered by `order`: the layers that `order` names come
/// first (on top), in the order of their first mention, above the others.
pub open spec fn listed_on_top(names: Seq<Seq<char>>, order: Seq<Seq<char>>) -> bool {
    forall|i: int, j: int|
        0 <= i < j < names.len() && order.contains(#[trigger] names[j]) ==> order.contains(
            #[trigger] names[i],
        ) && first_index(order, names[i]) <= first_index(order, names[j])
}

/// The layer at `a` comes before the layer at `b`: a smaller key, or the same key and an
/// earlier place.
pub open spec fn precedes(names: Seq<Seq<char>>, order: Seq<Seq<char>>, a: int, b: int) -> bool {
    ||| reorder_key(names, order, a) < reorder_key(names, order, b)
    ||| reorder_key(names, order, a) == reorder_key(names, order, b) && a < b
}

/// `p` lists the places of the layers sorted by key, stably: every place once, each before
/// the next.
pub open spec fn stable_reordering(names: Seq<Seq<char>>, order: Seq<Seq<char>>, p: Seq<int>) -> bool {
    &&& p.len() == names.len()
    &&& forall|i: int| 0 <= i < p.len() ==> 0 <= #[trigger] p[i] < names.len()
    &&& forall|i: int, j: int|
        0 <= i < j < p.len() ==> precedes(names, order, #[trigger] p[i], #[trigger] p[j])
}

/// The index of the first slice whose text is `k`.
pub fn find_str(v: &Vec<&str>, k: &str) -> (r: Option<usize>)
    ensures
        match r {
            Some(i) => i as int == first_index(str_views(v@), k@),
            None => !str_views(v@).contains(k@),
        },
{
    proof {
        lemma_first_index(str_views(v@), k@);
    }
    let mut i: usize = 0;
    while i < v.len()
        invariant
            i <= v@.len(),
            forall|j: int| 0 <= j < i ==> v@[j]@ != k@,
        decreases v@.len() - i,
    {
        if text_eq(v[i], k) {
            proof {
                assert(str_views(v@)[i as int] == k@);
                assert forall|j: int| 0 <= j < i implies str_views(v@)[j] != k@ by {
                    assert(str_views(v@)[j] == v@[j]@);
                }
                lemma_first_index_of(str_views(v@), k@, i as int);
            }
            return Some(i);
        }
        i = i + 1;
    }
    proof {
        if str_views(v@).contains(k@) {
            let j = choose|j: int| 0 <= j < str_views(v@).len() && str_views(v@)[j] == k@;
            assert(v@[j]@ == str_views(v@)[j]);
        }
    }
    None
}

/// The name of a debug mark of `region`: the region's text followed by `suffix`.
pub open spec fn debug_name(region: Region, suffix: Seq<char>) -> Seq<char> {
    region_text(region) + suffix
}

/// `layer` holds, under `name`, an object of shape `shape` filled with `fill`.
pub open spec fn holds(layer: Layer, name: Seq<char>, shape: Shape, fill: Fill) -> bool {
    layer.has(name) && layer.get(name).shape == shape && layer.get(name).fill == Some(fill)
}

/// `layer` marks `region` in `color`: a dot on each corner, the right and bottom ones one cell
/// further out where the cells end, and the rectangle filled with the color at a quarter
/// opacity.
pub open spec fn marks_region(layer: Layer, region: Region, color: Color) -> bool {
    let (sx, sy, ex, ey) = (region.start.0, region.start.1, region.end.0, region.end.1);
    &&& layer.wf()
    &&& holds(
        layer,
        debug_name(region, "_corner_ss"@),
        Shape::Dot(Point(sx, sy)),
        Fill::Solid(color),
    )
    &&& holds(
        layer,
        debug_name(region, "_corner_se"@),
        Shape::Dot(Point(ex, sy).spec_translated(1i32, 0i32)),
        Fill::Solid(color),
    )
    &&& holds(
        layer,
        debug_name(region, "_corner_ne"@),
        Shape::Dot(Point(ex, ey).spec_translated(1i32, 1i32)),
        Fill::Solid(color),
    )
    &&& holds(
        layer,
        debug_name(region, "_corner_nw"@),
        Shape::Dot(Point(sx, ey).spec_translated(0i32, 1i32)),
        Fill::Solid(color),
    )
    &&& holds(
        layer,
        debug_name(region, "_region"@),
        Shape::Rectangle(region.start, region.end),
        Fill::Translucent(color, Scalar(0x3E80_0000)),
    )
}

impl Canvas {
    /// Whether a layer is named `k`.
    pub open spec fn has_layer(&self, k: Seq<char>) -> bool {
        layer_index(self.layers@, k) >= 0
    }

    /// The first layer named `k` (meaningful when `has_layer(k)`).
    pub open spec fn layer_named(&self, k: Seq<char>) -> Layer {
        self.layers@[layer_index(self.layers@, k)]
    }

    /// `self` and `other` agree on every field but the layers.
    pub open spec fn same_but_layers(&self, other: Canvas) -> bool {
        &&& other.grid_size == self.grid_size
        &&& other.cell_size == self.cell_size
        &&& other.objects_count_range == self.objects_count_range
        &&& other.polygon_vertices_range == self.polygon_vertices_range
        &&& other.canvas_outter_padding == self.canvas_outter_padding
        &&& other.object_sizes == self.object_sizes
        &&& other.font_options == self.font_options
        &&& other.colormap == self.colormap
        &&& other.background == self.background
        &&& other.world_region == self.world_region
    }

    /// `self` and `other` agree on every field but the background.
    pub open spec fn same_but_background(&self, other: Canvas) -> bool {
        &&& other.grid_size == self.grid_size
        &&& other.cell_size == self.cell_size
        &&& other.objects_count_range == self.objects_count_range
        &&& other.polygon_vertices_range == self.polygon_vertices_range
        &&& other.canvas_outter_padding == self.canvas_outter_padding
        &&& other.object_sizes == self.object_sizes
        &&& other.font_options == self.font_options
        &&& other.colormap == self.colormap
        &&& other.layers == self.layers
        &&& other.world_region == self.world_region
    }

    /// `self` and `other` agree on every field but the grid size and the world region.
    pub open spec fn same_but_grid(&self, other: Canvas) -> bool {
        &&& other.cell_size == self.cell_size
        &&& other.objects_count_range == self.objects_count_range
        &&& other.polygon_vertices_range == self.polygon_vertices_range
        &&& other.canvas_outter_padding == self.canvas_outter_padding
        &&& other.object_sizes == self.object_sizes
        &&& other.font_options == self.font_options
        &&& other.colormap == self.colormap
        &&& other.layers == self.layers
        &&& other.background == self.background
    }

    /// The settings of a fresh canvas: a 3 by 3 grid of 50-pixel cells with a 10-pixel margin,
    /// 3 to 6 objects and 2 to 6 polygon vertices when drawn at random, default sizes, fonts
    /// and colors, no background, the world region from `(0, 0)` to `(3, 3)`.
    pub open spec fn has_default_settings(&self) -> bool {
        &&& self.grid_size == (3usize, 3usize)
        &&& self.cell_size == 50
        &&& self.objects_count_range == (Range { start: 3usize, end: 7usize })
        &&& self.polygon_vertices_range == (Range { start: 2usize, end: 7usize })
        &&& self.canvas_outter_padding == 10
        &&& self.object_sizes == default_sizes()
        &&& self.font_options.is_default()
        &&& self.background is None
        &&& self.world_region == (Region { start: Point(0, 0), end: Point(3, 3) })
    }

    /// A canvas with the default settings and a single empty layer, `root`.
    pub fn default_settings() -> (c: Canvas)
        ensures
            c.has_default_settings(),
            is_default_colormap(c.colormap),
            c.layers@.len() == 1,
            default_layer(c.layers@[0], "root"@),
    {
        Canvas {
            grid_size: (3, 3),
            cell_size: 50,
            objects_count_range: Range { start: 3, end: 7 },
            polygon_vertices_range: Range { start: 2, end: 7 },
            canvas_outter_padding: 10,
            object_sizes: ObjectSizes::default(),
            font_options: FontOptions::default(),
            colormap: ColorMapping::default(),
            layers: vec![Layer::new("root")],
            background: None,
            world_region: Region { start: Point(0, 0), end: Point(3, 3) },
        }
    }

    /// Whether a layer is named `name`.
    pub fn layer_exists(&self, name: &str) -> (r: bool)
        ensures
            r == self.has_layer(name@),
    {
        proof {
            lemma_layer_index(self.layers@, name@);
        }
        find_layer(&self.layers, name).is_some()
    }

    /// The first layer named `name`, if any.
    pub fn layer_safe(&mut self, name: &str) -> (r: Option<&mut Layer>)
        ensures
            old(self).has_layer(name@) <==> r is Some,
            old(self).same_but_layers(*final(self)),
            match r {
                Some(l) => *l == old(self).layer_named(name@) && final(self).layers@ == old(
                    self,
                ).layers@.update(layer_index(old(self).layers@, name@), *final(l)),
                None => final(self).layers == old(self).layers,
            },
    {
        proof {
            lemma_layer_index(self.layers@, name@);
        }
        match find_layer(&self.layers, name) {
            Some(i) => Some(&mut self.layers[i]),
            None => None,
        }
    }

    /// The first layer named `name`, which must exist.
    pub fn layer(&mut self, name: &str) -> (r: &mut Layer)
        requires
            old(self).has_layer(name@),
        ensures
            *r == old(self).layer_named(name@),
            old(self).same_but_layers(*final(self)),
            final(self).layers@ == old(self).layers@.update(
                layer_index(old(self).layers@, name@),
                *final(r),
            ),
    {
        proof {
            lemma_layer_index(self.layers@, name@);
        }
        let i = match find_layer(&self.layers, name) {
            Some(i) => i,
            None => 0,
        };
        &mut self.layers[i]
    }
    /// Adds an empty layer named `name`, which must not exist yet, with the canvas's object
    /// sizes, at the bottom.
    pub fn new_layer(&mut self, name: &str) -> (r: &mut Layer)
        requires
            !old(self).has_layer(name@),
        ensures
            r.name@ == name@,
            r.objects@.len() == 0,
            !r.hidden,
            r.object_sizes == old(self).object_sizes,
            old(self).same_but_layers(*final(self)),
            final(self).layers@ == old(self).layers@.push(*final(r)),
    {
        let mut layer = Layer::new(name);
        layer.object_sizes = self.object_sizes;
        self.layers.push(layer);
        let n = self.layers.len() - 1;
        &mut self.layers[n]
    }

    /// Adds `layer`, whose name must not be in use yet, at the bottom.
    pub fn add_layer(&mut self, layer: Layer) -> (r: &mut Layer)
        requires
            !old(self).has_layer(layer.name@),
        ensures
            *r == layer,
            old(self).same_but_layers(*final(self)),
            final(self).layers@ == old(self).layers@.push(*final(r)),
    {
        self.layers.push(layer);
        let n = self.layers.len() - 1;
        &mut self.layers[n]
    }

    /// The first layer named `name`, added empty at the bottom if there is none.
    pub fn layer_or_empty(&mut self, name: &str) -> (r: &mut Layer)
        ensures
            old(self).same_but_layers(*final(self)),
            old(self).has_layer(name@) ==> *r == old(self).layer_named(name@)
                && final(self).layers@ == old(self).layers@.update(
                layer_index(old(self).layers@, name@),
                *final(r),
            ),
            !old(self).has_layer(name@) ==> r.name@ == name@ && r.objects@.len() == 0 && !r.hidden
                && r.object_sizes == old(self).object_sizes
                && final(self).layers@ == old(self).layers@.push(*final(r)),
    {
        if self.layer_exists(name) {
            return self.layer(name);
        }
        self.new_layer(name)
    }

    /// Checks that a layer is named `name`; one must be.
    pub fn ensure_layer_exists(&self, name: &str)
        requires
            self.has_layer(name@),
    {
    }

    /// Puts the first layer named `name`, which must exist, on top, keeping the others in
    /// their order below it.
    pub fn put_layer_on_top(&mut self, name: &str)
        requires
            old(self).has_layer(name@),
        ensures
            old(self).same_but_layers(*final(self)),
            final(self).layers@ == seq![old(self).layer_named(name@)] + old(self).layers@.remove(
                layer_index(old(self).layers@, name@),
            ),
    {
        proof {
            lemma_layer_index(self.layers@, name@);
        }
        self.ensure_layer_exists(name);
        let i = match find_layer(&self.layers, name) {
            Some(i) => i,
            None => 0,
        };
        let ghost before = self.layers@;
        let layer = self.layers.remove(i);
        self.layers.insert(0, layer);
        assert(self.layers@ =~= seq![before[i as int]] + before.remove(i as int));
    }

    /// Puts the first layer named `name`, which must exist, at the bottom, keeping the others
    /// in their order above it.
    pub fn put_layer_on_bottom(&mut self, name: &str)
        requires
            old(self).has_layer(name@),
        ensures
            old(self).same_but_layers(*final(self)),
            final(self).layers@ == old(self).layers@.remove(
                layer_index(old(self).layers@, name@),
            ).push(old(self).layer_named(name@)),
    {
        proof {
            lemma_layer_index(self.layers@, name@);
        }
        self.ensure_layer_exists(name);
        let i = match find_layer(&self.layers, name) {
            Some(i) => i,
            None => 0,
        };
        let layer = self.layers.remove(i);
        self.layers.push(layer);
    }

    /// The layer named `root`, which must exist.
    pub fn root(&mut self) -> (r: &mut Layer)
        requires
            old(self).has_layer("root"@),
        ensures
            *r == old(self).layer_named("root"@),
            old(self).same_but_layers(*final(self)),
            final(self).layers@ == old(self).layers@.update(
                layer_index(old(self).layers@, "root"@),
                *final(r),
            ),
    {
        self.layer("root")
    }

    /// Sets the object `name` of the first layer named `layer` to `object` filled with `fill`,
    /// or says that no layer has that name.
    pub fn add_object(&mut self, layer: &str, name: &str, object: Shape, fill: Option<Fill>) -> (r:
        Result<(), String>)
        ensures
            old(self).same_but_layers(*final(self)),
            !old(self).has_layer(layer@) ==> final(self).layers == old(self).layers && r is Err
                && r->Err_0@ == seq!['L', 'a', 'y', 'e', 'r', ' '] + layer@ + seq![
                ' ',
                'd',
                'o',
                'e',
                's',
                ' ',
                'n',
                'o',
                't',
                ' ',
                'e',
                'x',
                'i',
                's',
                't',
            ],
            old(self).has_layer(layer@) ==> {
                let i = layer_index(old(self).layers@, layer@);
                &&& r is Ok
                &&& final(self).layers@ == old(self).layers@.update(i, final(self).layers@[i])
                &&& exists|o: Object|
                    set_outcome(old(self).layers@[i], #[trigger] final(self).layers@[i], name@, o)
                        && o.shape == object && o.fill == fill && o.filters@.len() == 0
                        && o.transformations@.len() == 0 && o.tags@.len() == 0 && o.clip_to is None
            },
    {
        proof {
            lemma_layer_index(self.layers@, layer@);
        }
        match find_layer(&self.layers, layer) {
            None => {
                let mut message = String::from_str("Layer ");
                write_str(&mut message, layer);
                write_str(&mut message, " does not exist");
                proof {
                    reveal_strlit("Layer ");
                    reveal_strlit(" does not exist");
                    assert("Layer "@ =~= seq!['L', 'a', 'y', 'e', 'r', ' ']);
                    assert(" does not exist"@ =~= seq![
                        ' ',
                        'd',
                        'o',
                        'e',
                        's',
                        ' ',
                        'n',
                        'o',
                        't',
                        ' ',
                        'e',
                        'x',
                        'i',
                        's',
                        't',
                    ]);
                }
                Err(message)
            },
            Some(i) => {
                let o = Object::from((object, fill));
                let ghost og = o;
                let ghost before = self.layers@[i as int];
                self.layers[i].set(name, o);
                proof {
                    assert(set_outcome(before, self.layers@[i as int], name@, og));
                    assert(self.layers@ =~= old(self).layers@.update(i as int, self.layers@[i as int]));
                }
                Ok(())
            },
        }
    }
    /// Removes the object named `name` from every layer.
    pub fn remove_object(&mut self, name: &str)
        ensures
            old(self).same_but_layers(*final(self)),
            final(self).layers@.len() == old(self).layers@.len(),
            forall|i: int|
                0 <= i < old(self).layers@.len() ==> remove_outcome(
                    old(self).layers@[i],
                    #[trigger] final(self).layers@[i],
                    name@,
                ),
    {
        let mut i: usize = 0;
        while i < self.layers.len()
            invariant
                i <= self.layers@.len(),
                self.layers@.len() == old(self).layers@.len(),
                old(self).same_but_layers(*self),
                forall|j: int|
                    0 <= j < i ==> remove_outcome(
                        old(self).layers@[j],
                        #[trigger] self.layers@[j],
                        name@,
                    ),
                forall|j: int| i <= j < self.layers@.len() ==> self.layers@[j] == old(self).layers@[j],
            decreases self.layers@.len() - i,
        {
            let ghost before = self.layers@;
            self.layers[i].remove_object(name);
            proof {
                assert forall|j: int| 0 <= j < self.layers@.len() && j != i implies self.layers@[j]
                    == before[j] by {}
            }
            i = i + 1;
        }
    }

    /// Sets the background color.
    pub fn set_background(&mut self, color: Color)
        ensures
            final(self).background == Some(color),
            old(self).same_but_background(*final(self)),
    {
        self.background = Some(color);
    }

    /// Removes the background color.
    pub fn remove_background(&mut self)
        ensures
            final(self).background is None,
            old(self).same_but_background(*final(self)),
    {
        self.background = None;
    }

    /// Gives the objects of `layer` to the first layer of the same name, or adds `layer` at
    /// the bottom when there is none.
    pub fn add_or_replace_layer(&mut self, layer: Layer)
        ensures
            old(self).same_but_layers(*final(self)),
            old(self).has_layer(layer.name@) ==> {
                let i = layer_index(old(self).layers@, layer.name@);
                &&& final(self).layers@ == old(self).layers@.update(i, final(self).layers@[i])
                &&& old(self).layers@[i].same_but_objects(final(self).layers@[i])
                &&& final(self).layers@[i].objects == layer.objects
            },
            !old(self).has_layer(layer.name@) ==> final(self).layers@ == old(self).layers@.push(
                layer,
            ),
    {
        proof {
            lemma_layer_index(self.layers@, layer.name@);
        }
        match find_layer(&self.layers, layer.name.as_str()) {
            Some(i) => {
                self.layers[i].replace(layer);
                assert(self.layers@ =~= old(self).layers@.update(i as int, self.layers@[i as int]));
            },
            None => {
                self.layers.push(layer);
            },
        }
    }

    /// Whether `region` goes from `(0, 0)` to the point `grid_size`.
    pub fn region_is_whole_grid(&self, region: &Region) -> (r: bool)
        ensures
            r == (region.start == Point(0, 0) && region.end == Point(
                self.grid_size.0,
                self.grid_size.1,
            )),
    {
        region.start.0 == 0 && region.start.1 == 0 && region.end.0 == self.grid_size.0
            && region.end.1 == self.grid_size.1
    }

    /// Removes every layer and the background.
    pub fn clear(&mut self)
        ensures
            final(self).layers@.len() == 0,
            final(self).background is None,
            old(self).same_but_layers(
                Canvas { layers: old(self).layers, background: old(self).background, ..*final(self) },
            ),
    {
        self.layers.clear();
        self.remove_background();
    }

    /// The width in pixels: the cells of the world region and the padding on both sides.
    pub fn width(&self) -> (w: usize)
        requires
            self.world_region.end.0 - self.world_region.start.0 < usize::MAX,
            self.cell_size * self.world_region.spec_width() + 2 * self.canvas_outter_padding
                <= usize::MAX,
        ensures
            w == self.cell_size * self.world_region.spec_width() + 2 * self.canvas_outter_padding,
    {
        let cells = self.world_region.width();
        assert(0 <= self.cell_size * cells) by (nonlinear_arith);
        self.cell_size * cells + 2 * self.canvas_outter_padding
    }

    /// The height in pixels: the cells of the world region and the padding on both sides.
    pub fn height(&self) -> (h: usize)
        requires
            self.world_region.end.1 - self.world_region.start.1 < usize::MAX,
            self.cell_size * self.world_region.spec_height() + 2 * self.canvas_outter_padding
                <= usize::MAX,
        ensures
            h == self.cell_size * self.world_region.spec_height() + 2 * self.canvas_outter_padding,
    {
        let cells = self.world_region.height();
        assert(0 <= self.cell_size * cells) by (nonlinear_arith);
        self.cell_size * cells + 2 * self.canvas_outter_padding
    }

    /// Removes, in every layer, the objects whose region lies within `region`.
    pub fn remove_all_objects_in(&mut self, region: &Region)
        requires
            forall|i: int|
                0 <= i < old(self).layers@.len() ==> (#[trigger] old(
                    self,
                ).layers@[i]).all_have_regions(),
        ensures
            old(self).same_but_layers(*final(self)),
            final(self).layers@.len() == old(self).layers@.len(),
            forall|i: int|
                0 <= i < old(self).layers@.len() ==> {
                    &&& old(self).layers@[i].same_but_objects(#[trigger] final(self).layers@[i])
                    &&& final(self).layers@[i].objects@ == old(self).layers@[i].objects@.filter(
                        |e: (String, Object)| !e.1.shape.spec_region().spec_within(*region),
                    )
                },
    {
        let mut i: usize = 0;
        while i < self.layers.len()
            invariant
                i <= self.layers@.len(),
                self.layers@.len() == old(self).layers@.len(),
                old(self).same_but_layers(*self),
                forall|j: int|
                    0 <= j < old(self).layers@.len() ==> (#[trigger] old(
                        self,
                    ).layers@[j]).all_have_regions(),
                forall|j: int|
                    0 <= j < i ==> {
                        &&& old(self).layers@[j].same_but_objects(#[trigger] self.layers@[j])
                        &&& self.layers@[j].objects@ == old(self).layers@[j].objects@.filter(
                            |e: (String, Object)| !e.1.shape.spec_region().spec_within(*region),
                        )
                    },
                forall|j: int| i <= j < self.layers@.len() ==> self.layers@[j] == old(self).layers@[j],
            decreases self.layers@.len() - i,
        {
            let ghost before = self.layers@;
            assert(old(self).layers@[i as int].all_have_regions());
            self.layers[i].remove_all_objects_in(region);
            proof {
                assert forall|j: int| 0 <= j < self.layers@.len() && j != i implies self.layers@[j]
                    == before[j] by {}
            }
            i = i + 1;
        }
    }
    /// Replaces the layers by one empty layer per name, in order, and a layer named `root`
    /// at the bottom when no name is `root`.
    pub fn init_layers(&mut self, names: Vec<&str>)
        ensures
            old(self).same_but_layers(*final(self)),
            initial_layers(final(self).layers@, str_views(names@)),
    {
        let mut layers: Vec<Layer> = Vec::new();
        let mut i: usize = 0;
        while i < names.len()
            invariant
                i <= names@.len(),
                layers@.len() == i,
                forall|j: int| 0 <= j < i ==> default_layer(#[trigger] layers@[j], names@[j]@),
            decreases names@.len() - i,
        {
            layers.push(Layer::new(names[i]));
            i = i + 1;
        }
        self.layers = layers;
        let ghost views = str_views(names@);
        proof {
            lemma_layer_index(self.layers@, "root"@);
            if views.contains("root"@) {
                let j = choose|j: int| 0 <= j < views.len() && views[j] == "root"@;
                assert(self.layers@[j].name@ == "root"@);
            }
            if self.has_layer("root"@) {
                let j = layer_index(self.layers@, "root"@);
                assert(views[j] == "root"@);
            }
        }
        if !self.layer_exists("root") {
            self.layers.push(Layer::new("root"));
        }
    }

    /// A canvas with the default settings and colors whose layers are one empty layer per
    /// name, then `root` when no name is `root` (see `init_layers`).
    pub fn new(layer_names: Vec<&str>) -> (c: Canvas)
        ensures
            c.has_default_settings(),
            is_default_colormap(c.colormap),
            initial_layers(c.layers@, str_views(layer_names@)),
    {
        let mut canvas = Canvas::default_settings();
        canvas.init_layers(layer_names);
        canvas
    }

    /// A canvas with the default settings (see `default_settings`) and the given colors.
    pub fn with_colors(colormap: ColorMapping) -> (c: Canvas)
        ensures
            c.has_default_settings(),
            c.colormap == colormap,
            c.layers@.len() == 1,
            default_layer(c.layers@[0], "root"@),
    {
        let mut canvas = Canvas::default_settings();
        canvas.colormap = colormap;
        canvas
    }

    /// Sets the grid size, and the world region to span it: from `(0, 0)` to one less than
    /// the size on each axis.
    pub fn set_grid_size(&mut self, new_width: usize, new_height: usize)
        requires
            Point(new_width, new_height).can_translate(-1i32, -1i32),
        ensures
            final(self).grid_size == (new_width, new_height),
            final(self).world_region == (Region {
                start: Point(0, 0),
                end: Point(new_width, new_height).spec_translated(-1i32, -1i32),
            }),
            old(self).same_but_grid(*final(self)),
    {
        self.grid_size = (new_width, new_height);
        self.world_region = Region {
            start: Point(0, 0),
            end: Point::from(self.grid_size).translated(-1, -1),
        };
    }
    /// Marks `region` in `color` on the first layer named `debug plane`, added at the bottom
    /// if there is none (see `marks_region`).
    pub fn debug_region(&mut self, region: &Region, color: Color)
        requires
            Point(region.end.0, region.end.1).can_translate(1i32, 1i32),
        ensures
            old(self).same_but_layers(*final(self)),
            old(self).has_layer("debug plane"@) ==> {
                let i = layer_index(old(self).layers@, "debug plane"@);
                &&& final(self).layers@ == old(self).layers@.update(i, final(self).layers@[i])
                &&& old(self).layers@[i].same_but_objects(final(self).layers@[i])
                &&& old(self).layers@[i].wf() ==> marks_region(
                    final(self).layers@[i],
                    *region,
                    color,
                )
            },
            !old(self).has_layer("debug plane"@) ==> {
                let l = final(self).layers@.last();
                &&& final(self).layers@.len() == old(self).layers@.len() + 1
                &&& final(self).layers@.drop_last() == old(self).layers@
                &&& l.name@ == "debug plane"@
                &&& !l.hidden
                &&& l.object_sizes == old(self).object_sizes
                &&& marks_region(l, *region, color)
            },
    {
        proof {
            lemma_layer_index(self.layers@, "debug plane"@);
        }
        let i = match find_layer(&self.layers, "debug plane") {
            Some(i) => i,
            None => {
                let _ = self.new_layer("debug plane");
                self.layers.len() - 1
            },
        };
        let ghost mid = self.layers@;
        let ghost l0 = self.layers@[i as int];
        proof {
            if !old(self).has_layer("debug plane"@) {
                assert(mid == old(self).layers@.push(l0));
                assert(l0.wf());
            }
        }
        let mut n1 = region.to_string();
        write_str(&mut n1, "_corner_ss");
        let mut n2 = region.to_string();
        write_str(&mut n2, "_corner_se");
        let mut n3 = region.to_string();
        write_str(&mut n3, "_corner_ne");
        let mut n4 = region.to_string();
        write_str(&mut n4, "_corner_nw");
        let mut n5 = region.to_string();
        write_str(&mut n5, "_region");
        let o1 = Shape::Dot(region.topleft()).colored(color);
        let o2 = Shape::Dot(region.topright().translated(1, 0)).colored(color);
        let o3 = Shape::Dot(region.bottomright().translated(1, 1)).colored(color);
        let o4 = Shape::Dot(region.bottomleft().translated(0, 1)).colored(color);
        let o5 = Shape::Rectangle(region.start, region.end).filled(
            Fill::Translucent(color, Scalar::quarter()),
        );
        let ghost (g1, g2, g3, g4, g5) = (o1, o2, o3, o4, o5);
        self.layers[i].set(n1.as_str(), o1);
        let ghost l1 = self.layers@[i as int];
        self.layers[i].set(n2.as_str(), o2);
        let ghost l2 = self.layers@[i as int];
        self.layers[i].set(n3.as_str(), o3);
        let ghost l3 = self.layers@[i as int];
        self.layers[i].set(n4.as_str(), o4);
        let ghost l4 = self.layers@[i as int];
        self.layers[i].set(n5.as_str(), o5);
        let ghost l5 = self.layers@[i as int];
        proof {
            assert(self.layers@ =~= mid.update(i as int, l5));
            let p = region_text(*region);
            reveal_strlit("_corner_ss");
            reveal_strlit("_corner_se");
            reveal_strlit("_corner_ne");
            reveal_strlit("_corner_nw");
            reveal_strlit("_region");
            let k: int = p.len() as int;
            assert(n1@[k + 9] == 's' && n2@[k + 9] == 'e' && n3@[k + 9] == 'e' && n4@[k + 9]
                == 'w');
            assert(n1@[k + 8] == 's' && n2@[k + 8] == 's' && n3@[k + 8] == 'n' && n4@[k + 8]
                == 'n');
            assert(n5@.len() == k + 7 && n1@.len() == k + 10 && n2@.len() == k + 10);
            assert(n3@.len() == k + 10 && n4@.len() == k + 10);
            if l0.wf() {
                lemma_set_keeps_others(l1, l2, n2@, g2, n1@);
                lemma_set_keeps_others(l2, l3, n3@, g3, n1@);
                lemma_set_keeps_others(l2, l3, n3@, g3, n2@);
                lemma_set_keeps_others(l3, l4, n4@, g4, n1@);
                lemma_set_keeps_others(l3, l4, n4@, g4, n2@);
                lemma_set_keeps_others(l3, l4, n4@, g4, n3@);
                lemma_set_keeps_others(l4, l5, n5@, g5, n1@);
                lemma_set_keeps_others(l4, l5, n5@, g5, n2@);
                lemma_set_keeps_others(l4, l5, n5@, g5, n3@);
                lemma_set_keeps_others(l4, l5, n5@, g5, n4@);
                assert(n1@ == debug_name(*region, "_corner_ss"@));
                assert(n2@ == debug_name(*region, "_corner_se"@));
                assert(n3@ == debug_name(*region, "_corner_ne"@));
                assert(n4@ == debug_name(*region, "_corner_nw"@));
                assert(n5@ == debug_name(*region, "_region"@));
            }
        }
    }
    /// Reorders the layers by `new_order`, whose names must all be in use: the first layer
    /// named goes on top, the last named below the other named ones, and the layers that are
    /// not named stay below them in their order; layers of the same name keep their order.
    pub fn reorder_layers(&mut self, new_order: Vec<&str>)
        requires
            forall|i: int| 0 <= i < new_order@.len() ==> old(self).has_layer(#[trigger] new_order@[i]@),
        ensures
            old(self).same_but_layers(*final(self)),
            final(self).layers@.len() == old(self).layers@.len(),
            exists|p: Seq<int>|
                #![trigger stable_reordering(layer_names(old(self).layers@), str_views(new_order@), p)]
                stable_reordering(layer_names(old(self).layers@), str_views(new_order@), p)
                    && forall|i: int|
                    0 <= i < p.len() ==> final(self).layers@[i] == old(self).layers@[#[trigger] p[i]],
            listed_on_top(layer_names(final(self).layers@), str_views(new_order@)),
    {
        let ghost orig = self.layers@;
        let ghost names = layer_names(orig);
        let ghost order = str_views(new_order@);
        let n = self.layers.len();
        let mut keys: Vec<u128> = Vec::new();
        let mut i: usize = 0;
        while i < n
            invariant
                i <= n,
                n == orig.len(),
                self.layers@ == orig,
                names == layer_names(orig),
                order == str_views(new_order@),
                keys@.len() == i,
                forall|j: int| 0 <= j < i ==> keys@[j] as int == reorder_key(names, order, j),
            decreases n - i,
        {
            let name = self.layers[i].name.as_str();
            proof {
                assert(names[i as int] == name@);
                lemma_first_index(names, name@);
                lemma_first_index(order, name@);
                assert(names.contains(name@));
            }
            let key: u128 = match find_str(&new_order, name) {
                Some(q) => q as u128,
                None => new_order.len() as u128 + i as u128,
            };
            assert(key as int == reorder_key(names, order, i as int));
            keys.push(key);
            i = i + 1;
        }
        let mut rest_layers: Vec<Layer> = Vec::new();
        std::mem::swap(&mut rest_layers, &mut self.layers);
        let mut rest_idx: Vec<usize> = Vec::new();
        let mut t: usize = 0;
        while t < n
            invariant
                t <= n,
                n == orig.len(),
                rest_idx@.len() == t,
                forall|j: int| 0 <= j < t ==> rest_idx@[j] == j,
            decreases n - t,
        {
            rest_idx.push(t);
            t = t + 1;
        }
        let mut out: Vec<Layer> = Vec::new();
        let ghost mut p: Seq<int> = Seq::empty();
        while rest_layers.len() > 0
            invariant
                n == orig.len(),
                names == layer_names(orig),
                order == str_views(new_order@),
                keys@.len() == n,
                forall|j: int| 0 <= j < n ==> keys@[j] as int == reorder_key(names, order, j),
                rest_layers@.len() == rest_idx@.len(),
                p.len() + rest_idx@.len() == n,
                out@.len() == p.len(),
                forall|a: int| 0 <= a < rest_idx@.len() ==> rest_idx@[a] < n,
                forall|a: int|
                    0 <= a < rest_idx@.len() ==> rest_layers@[a] == orig[#[trigger] rest_idx@[a] as int],
                forall|a: int, b: int|
                    0 <= a < rest_idx@.len() && 0 <= b < rest_idx@.len() && a != b
                        ==> rest_idx@[a] != rest_idx@[b],
                forall|a: int| 0 <= a < p.len() ==> 0 <= #[trigger] p[a] < n,
                forall|a: int| 0 <= a < p.len() ==> out@[a] == orig[#[trigger] p[a]],
                forall|a: int, b: int|
                    0 <= a < b < p.len() ==> precedes(names, order, #[trigger] p[a], #[trigger] p[b]),
                forall|a: int, b: int|
                    0 <= a < p.len() && 0 <= b < rest_idx@.len() ==> precedes(
                        names,
                        order,
                        #[trigger] p[a],
                        #[trigger] rest_idx@[b] as int,
                    ),
                old(self).same_but_layers(*self),
            decreases rest_layers@.len(),
        {
            let mut m: usize = 0;
            let mut c: usize = 1;
            while c < rest_idx.len()
                invariant
                    1 <= c <= rest_idx@.len(),
                    m < c,
                    n == orig.len(),
                    keys@.len() == n,
                    forall|a: int| 0 <= a < rest_idx@.len() ==> rest_idx@[a] < n,
                    forall|a: int|
                        0 <= a < c ==> !precedes(
                            names,
                            order,
                            #[trigger] rest_idx@[a] as int,
                            rest_idx@[m as int] as int,
                        ),
                    forall|j: int| 0 <= j < n ==> keys@[j] as int == reorder_key(names, order, j),
                decreases rest_idx@.len() - c,
            {
                let a = rest_idx[c];
                let b = rest_idx[m];
                if keys[a] < keys[b] || (keys[a] == keys[b] && a < b) {
                    m = c;
                }
                c = c + 1;
            }
            let ghost chosen = rest_idx@[m as int] as int;
            let ghost old_rest = rest_idx@;
            proof {
                assert forall|b: int|
                    0 <= b < old_rest.len() && b != m implies precedes(
                    names,
                    order,
                    chosen,
                    #[trigger] old_rest[b] as int,
                ) by {
                    assert(!precedes(names, order, old_rest[b] as int, chosen));
                    assert(old_rest[b] != old_rest[m as int]);
                }
            }
            let layer = rest_layers.remove(m);
            let _ = rest_idx.remove(m);
            out.push(layer);
            proof {
                p = p.push(chosen);
                assert forall|a: int, b: int|
                    0 <= a < rest_idx@.len() && 0 <= b < rest_idx@.len() && a
                        != b implies rest_idx@[a] != rest_idx@[b] by {
                    let a0 = if a < m { a } else { a + 1 };
                    let b0 = if b < m { b } else { b + 1 };
                    assert(rest_idx@[a] == old_rest[a0]);
                    assert(rest_idx@[b] == old_rest[b0]);
                }
                assert forall|a: int| 0 <= a < rest_idx@.len() implies rest_layers@[a]
                    == orig[#[trigger] rest_idx@[a] as int] by {
                    let a0 = if a < m { a } else { a + 1 };
                    assert(rest_idx@[a] == old_rest[a0]);
                }
                assert forall|a: int, b: int|
                    0 <= a < p.len() && 0 <= b < rest_idx@.len() implies precedes(
                    names,
                    order,
                    #[trigger] p[a],
                    #[trigger] rest_idx@[b] as int,
                ) by {
                    let b0 = if b < m { b } else { b + 1 };
                    assert(rest_idx@[b] == old_rest[b0]);
                }
            }
        }
        self.layers = out;
        proof {
            assert(stable_reordering(names, order, p));
            let fnames = layer_names(self.layers@);
            assert forall|i: int, j: int|
                0 <= i < j < fnames.len() && order.contains(#[trigger] fnames[j]) implies order.contains(
                #[trigger] fnames[i],
            ) && first_index(order, fnames[i]) <= first_index(order, fnames[j]) by {
                assert(fnames[i] == names[p[i]]);
                assert(fnames[j] == names[p[j]]);
                assert(precedes(names, order, p[i], p[j]));
                lemma_first_index(order, names[p[i]]);
                lemma_first_index(order, names[p[j]]);
            }
        }
    }
}

} // verus!
