use shapemaker::geometry::{Point, Region};
use shapemaker::graphics::{Canvas, Color, Filter, Layer, Object, Scalar, Shape};
use shapemaker::rendering::compose::object_id;
use shapemaker::rendering::svg::{tag, Node};

fn dot() -> Object {
    Shape::Dot(Point(0, 0)).colored(Color::Red)
}

#[test]
fn plain_objects_get_their_style_on_the_shape() {
    let o = dot();
    let n = o.render_node(tag("circle").node(), "fill: red;", vec![]);
    assert_eq!(n.to_string(), "<circle style=\"fill: red;\"/>\n");
    let raw = o.render_node(Node::SVG("<x/>".to_string()), "fill: red;", vec![]);
    assert_eq!(raw.to_string(), "<x/>");
}

#[test]
fn objects_with_effects_are_grouped_and_clipped() {
    let o = dot()
        .filtered(Filter::glow(Scalar(0)))
        .clipped_to(Region { start: Point(0, 0), end: Point(1, 1) });
    let n = o.render_node(
        tag("circle").node(),
        "a: b;",
        vec![("transform".to_string(), "rotate(3)".to_string())],
    );
    assert_eq!(
        n.to_string(),
        "<g clip-path=\"clip-(0, 0)-(1, 1)\">\n<g transform=\"rotate(3)\" style=\"a: b;\">\n<circle />\n</g></g>"
    );
}

#[test]
fn layers_draw_objects_by_name() {
    let mut l = Layer::new("l");
    l.add("b", dot());
    l.add("c", dot());
    l.add("a", dot());
    assert_eq!(l.drawing_order(), vec![2, 0, 1]);
    let g = l.group_node(vec![]);
    assert_eq!(g.to_string(), "<g class=\"layer\" data-layer=\"l\"/>\n");
    assert_eq!(object_id("l", "a"), "l--a");
}

#[test]
fn canvases_draw_shown_layers_bottom_up() {
    let mut c = Canvas::new(vec!["top", "middle"]);
    c.layers[1].hidden = true;
    assert_eq!(c.drawn_layers(), vec![2, 0]);
}

#[test]
fn the_document_frames_the_layers() {
    let mut c = Canvas::default_settings();
    c.set_background(Color::White);
    let n = c.render_document(vec![Node::SVG("<g/>".to_string())], tag("defs").node());
    assert_eq!(
        n.to_string(),
        "<svg height=\"220\" viewBox=\"-10 -10 220 220\" width=\"220\" xmlns=\"http://www.w3.org/2000/svg\">\n<rect fill=\"white\" height=\"220\" width=\"220\" x=\"-10\" y=\"-10\"/>\n<g/><defs />\n</svg>"
    );
}
