use shapemaker::geometry::{Point, Region};
use shapemaker::graphics::{Canvas, Color, Fill, Layer, Shape};

fn names(canvas: &Canvas) -> Vec<String> {
    canvas.layers.iter().map(|l| l.name.clone()).collect()
}

#[test]
fn default_settings_hold_one_root_layer() {
    let c = Canvas::default_settings();
    assert_eq!(c.grid_size, (3, 3));
    assert_eq!(c.cell_size, 50);
    assert_eq!(c.objects_count_range, 3..7);
    assert_eq!(c.polygon_vertices_range, 2..7);
    assert_eq!(c.canvas_outter_padding, 10);
    assert_eq!(names(&c), vec!["root".to_string()]);
    assert_eq!(c.background, None);
    assert_eq!(c.world_region, Region { start: Point(0, 0), end: Point(3, 3) });
    assert_eq!(c.colormap.red, "red");
}

#[test]
fn new_canvas_adds_root_below_when_missing() {
    let c = Canvas::new(vec!["top", "middle"]);
    assert_eq!(names(&c), vec!["top", "middle", "root"]);
    let c = Canvas::new(vec!["root", "top"]);
    assert_eq!(names(&c), vec!["root", "top"]);
}

#[test]
fn pixel_size_counts_cells_and_padding() {
    let c = Canvas::default_settings();
    assert_eq!(c.width(), 50 * 4 + 20);
    assert_eq!(c.height(), 50 * 4 + 20);
}

#[test]
fn set_grid_size_spans_the_world_region() {
    let mut c = Canvas::default_settings();
    c.set_grid_size(10, 6);
    assert_eq!(c.grid_size, (10, 6));
    assert_eq!(c.world_region, Region { start: Point(0, 0), end: Point(9, 5) });
    assert!(c.region_is_whole_grid(&Region { start: Point(0, 0), end: Point(10, 6) }));
    assert!(!c.region_is_whole_grid(&Region { start: Point(0, 0), end: Point(9, 5) }));
}

#[test]
fn adding_to_a_missing_layer_is_an_error() {
    let mut c = Canvas::default_settings();
    let r = c.add_object("nope", "a", Shape::Dot(Point(1, 1)), None);
    assert_eq!(r, Err("Layer nope does not exist".to_string()));
    let r = c.add_object("root", "a", Shape::Dot(Point(1, 1)), Some(Fill::Solid(Color::Red)));
    assert_eq!(r, Ok(()));
    assert_eq!(c.layers[0].objects.len(), 1);
    assert_eq!(c.layers[0].objects[0].1.fill, Some(Fill::Solid(Color::Red)));
}

#[test]
fn layer_moves_keep_the_others_in_order() {
    let mut c = Canvas::new(vec!["a", "b", "c", "d"]);
    c.put_layer_on_top("c");
    assert_eq!(names(&c), vec!["c", "a", "b", "d", "root"]);
    c.put_layer_on_bottom("a");
    assert_eq!(names(&c), vec!["c", "b", "d", "root", "a"]);
}

#[test]
fn reordering_puts_named_layers_first_stably() {
    let mut c = Canvas::new(vec!["a", "b", "c", "root"]);
    c.reorder_layers(vec!["c", "a"]);
    assert_eq!(names(&c), vec!["c", "a", "b", "root"]);
}

#[test]
fn reordering_puts_the_first_named_layer_on_top() {
    let mut c = Canvas::new(vec!["a", "b", "c"]);
    c.reorder_layers(vec!["c"]);
    assert_eq!(names(&c), vec!["c", "a", "b", "root"]);
    c.reorder_layers(vec!["root", "b", "a", "c"]);
    assert_eq!(names(&c), vec!["root", "b", "a", "c"]);
}

#[test]
fn removing_an_object_removes_it_from_every_layer() {
    let mut c = Canvas::new(vec!["a", "b"]);
    c.layer("a").add("x", Shape::Dot(Point(0, 0)).colored(Color::Red));
    c.layer("b").add("x", Shape::Dot(Point(1, 1)).colored(Color::Red));
    c.layer("b").add("y", Shape::Dot(Point(1, 1)).colored(Color::Red));
    c.remove_object("x");
    assert_eq!(c.layers[0].objects.len(), 0);
    assert_eq!(c.layers[1].objects.len(), 1);
    assert_eq!(c.layers[1].objects[0].0, "y");
}

#[test]
fn layer_or_empty_adds_a_layer_once() {
    let mut c = Canvas::default_settings();
    c.layer_or_empty("extra").add("x", Shape::Dot(Point(0, 0)).colored(Color::Red));
    c.layer_or_empty("extra");
    assert_eq!(names(&c), vec!["root", "extra"]);
    assert_eq!(c.layers[1].objects.len(), 1);
    assert!(c.layer_exists("extra"));
    assert!(!c.layer_exists("other"));
}

#[test]
fn add_or_replace_layer_takes_the_objects() {
    let mut c = Canvas::default_settings();
    let mut l = Layer::new("root");
    l.add("x", Shape::Dot(Point(0, 0)).colored(Color::Red));
    c.add_or_replace_layer(l);
    assert_eq!(names(&c), vec!["root"]);
    assert_eq!(c.layers[0].objects.len(), 1);
    c.add_or_replace_layer(Layer::new("other"));
    assert_eq!(names(&c), vec!["root", "other"]);
}

#[test]
fn debug_region_marks_corners_and_area() {
    let mut c = Canvas::default_settings();
    let region = Region { start: Point(1, 1), end: Point(2, 2) };
    c.debug_region(&region, Color::Pink);
    let layer = c.layers.iter().find(|l| l.name == "debug plane").unwrap();
    let names: Vec<&str> = layer.objects.iter().map(|(n, _)| n.as_str()).collect();
    assert_eq!(
        names,
        vec![
            "[(1, 1),(2, 2)]_corner_ss",
            "[(1, 1),(2, 2)]_corner_se",
            "[(1, 1),(2, 2)]_corner_ne",
            "[(1, 1),(2, 2)]_corner_nw",
            "[(1, 1),(2, 2)]_region",
        ]
    );
    assert!(matches!(layer.objects[1].1.shape, Shape::Dot(Point(3, 1))));
    assert!(matches!(layer.objects[2].1.shape, Shape::Dot(Point(3, 3))));
    assert!(matches!(layer.objects[3].1.shape, Shape::Dot(Point(1, 3))));
}

#[test]
fn clear_removes_layers_and_background() {
    let mut c = Canvas::default_settings();
    c.set_background(Color::Black);
    assert_eq!(c.background, Some(Color::Black));
    c.clear();
    assert_eq!(c.layers.len(), 0);
    assert_eq!(c.background, None);
}
