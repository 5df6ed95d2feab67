//! Example canvases: every kind of shape, every color, and a grid of dots.
use vstd::prelude::*;
use crate::geometry::point::Point;
use crate::geometry::region::Region;
use crate::graphics::canvas::Canvas;
use crate::graphics::color::Color;
use crate::graphics::fill::Fill;
use crate::graphics::layer::{
    anon_name, default_layer, lemma_anon_name_injective, lemma_name_index, Layer,
};
use crate::graphics::objects::Object;
use crate::graphics::scalar::Scalar;
use crate::graphics::shapes::{LineSegment, Shape};
use crate::graphics::canvas::layer_names;
use crate::graphics::color::ColorMapping;
use crate::graphics::filter::Filter;
use crate::graphics::scalar::Angle;
use crate::geometry::region::{lemma_points_len, Containable};
use crate::random::source::random_ratio;
use rand::rngs::StdRng;

verus! {

/// The world region of a 3 by 3 grid.
pub open spec fn three_by_three() -> Region {
    Region { start: Point(0, 0), end: Point(2, 2) }
}

/// `layer` holds `shapes` in order under the names `add_anon` gives, each filled with the
/// solid color of the same place.
pub open spec fn holds_in_order(layer: Layer, shapes: Seq<Shape>, colors: Seq<Color>) -> bool {
    &&& layer.objects@.len() == shapes.len()
    &&& forall|k: int|
        0 <= k < shapes.len() ==> {
            &&& (#[trigger] layer.objects@[k]).0@ == anon_name(k as nat)
            &&& layer.objects@[k].1.shape == shapes[k]
            &&& layer.objects@[k].1.fill == Some(Fill::Solid(colors[k]))
        }
}

/// The canvas is a 3 by 3 grid on a white background.
pub open spec fn white_three_by_three(c: Canvas) -> bool {
    &&& c.grid_size == (3usize, 3usize)
    &&& c.world_region == three_by_three()
    &&& c.background == Some(Color::White)
}

proof fn lemma_three_by_three()
    ensures
        Point(3, 3).can_translate(-1i32, -1i32),
        Point(3, 3).spec_translated(-1i32, -1i32) == Point(2, 2),
{
    assert(3usize as i32 == 3i32) by (bit_vector);
    assert((2i32) as usize == 2usize) by (bit_vector);
}

/// Adds the objects to the layer at `at` under the names `add_anon` gives, to a layer that
/// holds none yet.
fn add_all(canvas: &mut Canvas, at: usize, objects: Vec<Object>)
    requires
        at < old(canvas).layers@.len(),
        old(canvas).layers@[at as int].objects@.len() == 0,
    ensures
        old(canvas).same_but_layers(*final(canvas)),
        final(canvas).layers@.len() == old(canvas).layers@.len(),
        forall|i: int|
            0 <= i < final(canvas).layers@.len() && i != at ==> final(canvas).layers@[i] == old(
                canvas,
            ).layers@[i],
        old(canvas).layers@[at as int].same_but_objects(final(canvas).layers@[at as int]),
        final(canvas).layers@[at as int].objects@.len() == objects@.len(),
        forall|k: int|
            0 <= k < objects@.len() ==> (#[trigger] final(canvas).layers@[at as int].objects@[k]).0@
                == anon_name(k as nat) && final(canvas).layers@[at as int].objects@[k].1
                == objects@[k],
{
    let ghost given = objects@;
    let mut rest = objects;
    let mut k: usize = 0;
    let total = rest.len();
    assert(given.skip(0) =~= given);
    while rest.len() > 0
        invariant
            at < canvas.layers@.len(),
            k <= total,
            total == given.len(),
            rest@ == given.skip(k as int),
            old(canvas).same_but_layers(*canvas),
            canvas.layers@.len() == old(canvas).layers@.len(),
            forall|i: int|
                0 <= i < canvas.layers@.len() && i != at ==> canvas.layers@[i] == old(
                    canvas,
                ).layers@[i],
            old(canvas).layers@[at as int].same_but_objects(canvas.layers@[at as int]),
            canvas.layers@[at as int].objects@.len() == k,
            forall|j: int|
                0 <= j < k ==> (#[trigger] canvas.layers@[at as int].objects@[j]).0@ == anon_name(
                    j as nat,
                ) && canvas.layers@[at as int].objects@[j].1 == given[j],
        decreases rest@.len(),
    {
        assert(rest@.len() == total - k);
        assert(rest@[0] == given[k as int]);
        let object = rest.remove(0);
        let ghost before = canvas.layers@;
        let ghost objs = canvas.layers@[at as int].objects@;
        proof {
            lemma_name_index(objs, anon_name(k as nat));
            let i = crate::graphics::layer::name_index(objs, anon_name(k as nat));
            if i >= 0 {
                assert(objs[i].0@ == anon_name(i as nat));
                lemma_anon_name_injective(i as nat, k as nat);
            }
        }
        canvas.layers[at].add_anon(object);
        proof {
            let now = canvas.layers@[at as int].objects@;
            assert(now.drop_last() == objs);
            assert(crate::graphics::layer::entry_names(now).len() == now.len());
            assert(now[k as int].0@ == crate::graphics::layer::entry_names(now)[k as int]);
            assert forall|j: int| 0 <= j < k + 1 implies (#[trigger] now[j]).0@ == anon_name(
                j as nat,
            ) && now[j].1 == given[j] by {
                if j < k {
                    assert(now[j] == objs[j]);
                }
            }
            assert forall|i: int|
                0 <= i < canvas.layers@.len() && i != at implies canvas.layers@[i] == old(
                canvas,
            ).layers@[i] by {
                assert(canvas.layers@[i] == before[i]);
            }
            assert(rest@ =~= given.skip(k + 1));
        }
        k = k + 1;
    }
}

/// A 3 by 3 white canvas with one of each kind of shape on its root layer, in black: a big
/// circle, curves out and in, a small circle, a line, a rectangle, a dot and a polygon.
pub fn shapes_shed() -> (c: Canvas)
    ensures
        white_three_by_three(c),
        c.layers@.len() == 1,
        c.layers@[0].name@ == "root"@,
        c.layers@[0].objects@.len() == 8,
        forall|k: int|
            0 <= k < 8 ==> (#[trigger] c.layers@[0].objects@[k]).0@ == anon_name(k as nat)
                && c.layers@[0].objects@[k].1.fill == Some(Fill::Solid(Color::Black)),
        c.layers@[0].objects@[0].1.shape == Shape::BigCircle(Point(0, 0)),
        c.layers@[0].objects@[1].1.shape == Shape::CurveOutward(
            Point(1, 1),
            Point(2, 0),
            Scalar(0x40A0_0000),
        ),
        c.layers@[0].objects@[2].1.shape == Shape::CurveInward(
            Point(2, 1),
            Point(3, 0),
            Scalar(0x40A0_0000),
        ),
        c.layers@[0].objects@[3].1.shape == Shape::SmallCircle(Point(0, 1)),
        c.layers@[0].objects@[4].1.shape == Shape::Line(Point(1, 1), Point(2, 2), Scalar(0x40A0_0000)),
        c.layers@[0].objects@[5].1.shape == Shape::Rectangle(Point(0, 2), Point(0, 2)),
        c.layers@[0].objects@[6].1.shape == Shape::Dot(Point(2, 3)),
        c.layers@[0].objects@[7].1.shape matches Shape::Polygon(start, sides) && start == Point(2, 1)
            && sides@ == seq![LineSegment::Straight(Point(3, 1)), LineSegment::Straight(Point(3, 2))],
{
    let mut canvas = Canvas::new(Vec::new());
    proof {
        lemma_three_by_three();
        assert(default_layer(canvas.layers@[0], "root"@));
    }
    canvas.set_grid_size(3, 3);
    canvas.set_background(Color::White);
    let mut sides: Vec<LineSegment> = Vec::new();
    sides.push(LineSegment::Straight(Point(3, 1)));
    sides.push(LineSegment::Straight(Point(3, 2)));
    let objects = vec![
        Shape::BigCircle(Point(0, 0)).colored(Color::Black),
        Shape::CurveOutward(Point(1, 1), Point(2, 0), Scalar::five()).colored(Color::Black),
        Shape::CurveInward(Point(2, 1), Point(3, 0), Scalar::five()).colored(Color::Black),
        Shape::SmallCircle(Point(0, 1)).colored(Color::Black),
        Shape::Line(Point(1, 1), Point(2, 2), Scalar::five()).colored(Color::Black),
        Shape::Rectangle(Point(0, 2), Point(0, 2)).colored(Color::Black),
        Shape::Dot(Point(2, 3)).colored(Color::Black),
        Shape::Polygon(Point(2, 1), sides).colored(Color::Black),
    ];
    add_all(&mut canvas, 0, objects);
    canvas
}

/// The colors of `colors_shed`, in order.
pub open spec fn shed_colors() -> Seq<Color> {
    seq![
        Color::Blue,
        Color::Cyan,
        Color::Yellow,
        Color::Orange,
        Color::Red,
        Color::Brown,
        Color::Purple,
        Color::Pink,
        Color::Green,
    ]
}

/// The rectangles of one cell on each point of a region, in order.
pub open spec fn cell_rectangles(points: Seq<Point>) -> Seq<Shape> {
    points.map_values(|p: Point| Shape::Rectangle(p, p))
}

/// The dots on each point of a region, in order.
pub open spec fn dots(points: Seq<Point>) -> Seq<Shape> {
    points.map_values(|p: Point| Shape::Dot(p))
}

/// A 3 by 3 white canvas without padding whose root layer, under an empty `circles` layer,
/// holds a one-cell rectangle on each cell, each of a different color (see `shed_colors`).
pub fn colors_shed() -> (c: Canvas)
    ensures
        white_three_by_three(c),
        c.canvas_outter_padding == 0,
        c.layers@.len() == 2,
        c.layers@[0].name@ == "circles"@,
        c.layers@[0].objects@.len() == 0,
        c.layers@[1].name@ == "root"@,
        holds_in_order(c.layers@[1], cell_rectangles(three_by_three().spec_points()), shed_colors()),
{
    let mut names: Vec<&str> = Vec::new();
    names.push("circles");
    let mut canvas = Canvas::new(names);
    proof {
        reveal_strlit("circles");
        reveal_strlit("root");
        lemma_three_by_three();
        let views = crate::graphics::canvas::str_views(names@);
        assert(views =~= seq!["circles"@]);
        assert(!views.contains("root"@)) by {
            if views.contains("root"@) {
                assert(views[0] == "root"@);
            }
        }
        assert(default_layer(canvas.layers@[0], views[0]));
        assert(default_layer(canvas.layers@[1], "root"@));
    }
    canvas.set_grid_size(3, 3);
    canvas.canvas_outter_padding = 0;
    canvas.set_background(Color::White);
    let all_colors = vec![
        Color::Blue,
        Color::Cyan,
        Color::Yellow,
        Color::Orange,
        Color::Red,
        Color::Brown,
        Color::Purple,
        Color::Pink,
        Color::Green,
    ];
    let points = canvas.world_region.points();
    proof {
        reveal_with_fuel(Region::rows_through, 4);
        assert(points@ == three_by_three().spec_points());
        assert(points@.len() == 9);
    }
    let mut objects: Vec<Object> = Vec::new();
    let mut k: usize = 0;
    while k < 9
        invariant
            k <= 9,
            points@.len() == 9,
            all_colors@ == shed_colors(),
            objects@.len() == k,
            forall|j: int|
                0 <= j < k ==> (#[trigger] objects@[j]).shape == Shape::Rectangle(
                    points@[j],
                    points@[j],
                ) && objects@[j].fill == Some(Fill::Solid(shed_colors()[j])),
        decreases 9 - k,
    {
        let p = points[k];
        objects.push(Shape::Rectangle(p, p).colored(all_colors[k]));
        k = k + 1;
    }
    add_all(&mut canvas, 1, objects);
    canvas
}

/// A 3 by 3 white canvas whose root layer holds a black dot on each cell.
pub fn grid() -> (c: Canvas)
    ensures
        white_three_by_three(c),
        c.layers@.len() == 1,
        c.layers@[0].name@ == "root"@,
        holds_in_order(
            c.layers@[0],
            dots(three_by_three().spec_points()),
            Seq::new(9, |k: int| Color::Black),
        ),
{
    let mut canvas = Canvas::new(Vec::new());
    proof {
        lemma_three_by_three();
        assert(default_layer(canvas.layers@[0], "root"@));
    }
    canvas.set_grid_size(3, 3);
    canvas.set_background(Color::White);
    let points = canvas.world_region.points();
    proof {
        reveal_with_fuel(Region::rows_through, 4);
        assert(points@ == three_by_three().spec_points());
        assert(points@.len() == 9);
    }
    let mut objects: Vec<Object> = Vec::new();
    let mut k: usize = 0;
    while k < points.len()
        invariant
            k <= points@.len(),
            objects@.len() == k,
            forall|j: int|
                0 <= j < k ==> (#[trigger] objects@[j]).shape == Shape::Dot(points@[j])
                    && objects@[j].fill == Some(Fill::Solid(Color::Black)),
        decreases points@.len() - k,
    {
        objects.push(Shape::Dot(points[k]).colored(Color::Black));
        k = k + 1;
    }
    add_all(&mut canvas, 0, objects);
    canvas
}

/// The object is filled with white hatches.
pub open spec fn white_hatched(o: Object) -> bool {
    o.fill matches Some(Fill::Hatches(color, _, _, _)) && color == Color::White
}

/// The colors of the "DNA analysis machine" picture.
fn dna_colors() -> (c: ColorMapping) {
    ColorMapping {
        black: String::from_str("#000000"),
        white: String::from_str("#ffffff"),
        red: String::from_str("#cf0a2b"),
        green: String::from_str("#22e753"),
        blue: String::from_str("#2734e6"),
        yellow: String::from_str("#f8e21e"),
        orange: String::from_str("#f05811"),
        purple: String::from_str("#6a24ec"),
        brown: String::from_str("#a05634"),
        pink: String::from_str("#e92e76"),
        gray: String::from_str("#81a0a8"),
        cyan: String::from_str("#4fecec"),
    }
}

/// The "DNA analysis machine" picture, on a black 16 by 9 grid: thirty glowing strands in a
/// corner, alternately cyan and pink; a glowing red dot; and, on every other cell of the
/// drawing area, a hatched circle or square, drawn at random. The hatches of the `i`-th cell
/// are `hatch_sizes[i]` wide.
pub fn dna_analysis_machine(rng: &mut StdRng, hatch_sizes: &Vec<Scalar>) -> (c: Canvas)
    requires
        hatch_sizes@.len() >= 144,
    ensures
        c.grid_size == (16usize, 9usize),
        c.background == Some(Color::Black),
        layer_names(c.layers@) == seq!["root"@, "strands"@, "red dot"@, "hatches"@],
        c.layers@[1].objects@.len() == 30,
        c.layers@[2].objects@.len() == 1,
        c.layers@[2].objects@[0].1.shape is BigCircle,
        forall|k: int|
            0 <= k < c.layers@[3].objects@.len() ==> white_hatched(
                #[trigger] c.layers@[3].objects@[k].1,
            ),
{
    let mut canvas = Canvas::with_colors(dna_colors());
    proof {
        reveal_strlit("root");
        reveal_strlit("strands");
        reveal_strlit("red dot");
        reveal_strlit("hatches");
    }
    canvas.set_grid_size(16, 9);
    canvas.set_background(Color::Black);
    let world = canvas.world_region;
    assert((15usize as i32) == 15i32) by (bit_vector);
    assert((8usize as i32) == 8i32) by (bit_vector);
    assert((16usize as i32) == 16i32) by (bit_vector);
    let draw_in = world.resized(-2, -2);
    let origin = draw_in.bottomleft().translated(2, -1);
    let strands_in = match Region::from_bottomleft(origin, (3, 3)) {
        Ok(r) => r,
        Err(_) => {
            assert(false);
            Region { start: origin, end: origin }
        },
    };
    // Strands
    let mut strands = canvas.n_random_curves_within(rng, &strands_in, 30, "strands");
    let mut i: usize = 0;
    while i < strands.objects.len()
        invariant
            i <= strands.objects@.len(),
            strands.objects@.len() == 30,
            strands.name@ == "strands"@,
        decreases strands.objects@.len() - i,
    {
        let color = if i % 2 == 0 {
            Color::Cyan
        } else {
            Color::Pink
        };
        strands.objects[i].1.recolor(color);
        strands.objects[i].1.filter(Filter::glow(Scalar(0x4080_0000)));
        i = i + 1;
    }
    proof {
        assert(layer_names(canvas.layers@) =~= seq!["root"@]);
        crate::graphics::canvas::lemma_first_index(layer_names(canvas.layers@), "strands"@);
    }
    canvas.add_layer(strands);
    assert(layer_names(canvas.layers@) =~= seq!["root"@, "strands"@]);
    // Red dot
    let red_dot_origin = draw_in.topright().translated(-3, 0);
    let red_dot_in = match Region::from_topright(red_dot_origin, (4, 3)) {
        Ok(r) => r,
        Err(_) => {
            assert(false);
            Region { start: red_dot_origin, end: red_dot_origin }
        },
    };
    let red_dot = Shape::BigCircle(red_dot_in.random_point(rng)).colored(Color::Red).filtered(
        Filter::glow(Scalar::five()),
    );
    let red_dot_region = red_dot.region();
    proof {
        assert("red dot"@[0] != "strands"@[0]);
        assert("red dot"@ != "strands"@);
        assert(layer_names(canvas.layers@) =~= seq!["root"@, "strands"@]);
        assert(!layer_names(canvas.layers@).contains("red dot"@)) by {
            if layer_names(canvas.layers@).contains("red dot"@) {
                let j = choose|j: int|
                    0 <= j < layer_names(canvas.layers@).len() && layer_names(canvas.layers@)[j]
                        == "red dot"@;
                assert(j == 0 || j == 1);
                assert("red dot"@.len() == 7 && "root"@.len() == 4);
                assert(layer_names(canvas.layers@)[0] == "root"@);
                assert(layer_names(canvas.layers@)[1] == "strands"@);
            }
        }
        crate::graphics::canvas::lemma_first_index(layer_names(canvas.layers@), "red dot"@);
    }
    let _ = canvas.new_layer("red dot");
    assert(layer_names(canvas.layers@) =~= seq!["root"@, "strands"@, "red dot"@]);
    let at = canvas.layers.len() - 1;
    add_all(&mut canvas, at, vec![red_dot]);
    // Hatched circles and squares
    let points = draw_in.except(&strands_in);
    proof {
        broadcast use vstd::seq_lib::group_filter_ensures;

        lemma_points_len(draw_in);
        assert(draw_in == Region { start: Point(1, 1), end: Point(14, 7) });
        assert(points@.len() <= draw_in.spec_points().len());
        assert(draw_in.end.0 - draw_in.start.0 + 1 == 14);
        assert(draw_in.end.1 - draw_in.start.1 + 1 == 7);
        assert((draw_in.end.0 - draw_in.start.0 + 1) * (draw_in.end.1 - draw_in.start.1 + 1)
            == 98) by (nonlinear_arith)
            requires
                draw_in.end.0 - draw_in.start.0 + 1 == 14,
                draw_in.end.1 - draw_in.start.1 + 1 == 7,
        ;
    }
    let mut hatched: Vec<Object> = Vec::new();
    let mut k: usize = 0;
    while k < points.len()
        invariant
            k <= points@.len(),
            points@.len() <= 144,
            hatch_sizes@.len() >= 144,
            forall|j: int| 0 <= j < hatched@.len() ==> white_hatched(#[trigger] hatched@[j]),
        decreases points@.len() - k,
    {
        let point = points[k];
        if !red_dot_region.contains(&point) {
            let shape = if random_ratio(rng, 1, 2) {
                Shape::BigCircle(point)
            } else {
                Shape::Rectangle(point, point)
            };
            hatched.push(
                shape.filled(
                    Fill::Hatches(
                        Color::White,
                        Angle::from_degrees(Scalar::forty_five()),
                        hatch_sizes[k],
                        Scalar::quarter(),
                    ),
                ),
            );
        }
        k = k + 1;
    }
    proof {
        assert(layer_names(canvas.layers@) =~= seq!["root"@, "strands"@, "red dot"@]);
        assert(!layer_names(canvas.layers@).contains("hatches"@)) by {
            if layer_names(canvas.layers@).contains("hatches"@) {
                let j = choose|j: int|
                    0 <= j < layer_names(canvas.layers@).len() && layer_names(canvas.layers@)[j]
                        == "hatches"@;
                assert("hatches"@.len() == 7 && "root"@.len() == 4);
                assert("hatches"@[0] != "strands"@[0] && "hatches"@[0] != "red dot"@[0]);
                assert(layer_names(canvas.layers@)[j] == seq!["root"@, "strands"@, "red dot"@][j]);
            }
        }
        crate::graphics::canvas::lemma_first_index(layer_names(canvas.layers@), "hatches"@);
    }
    let _ = canvas.new_layer("hatches");
    let at = canvas.layers.len() - 1;
    add_all(&mut canvas, at, hatched);
    canvas
}

} // verus!
