use shapemaker::geometry::{Point, Region};
use shapemaker::graphics::{Color, Fill, Filter, Layer, Object, Shape};

fn dot(x: usize, y: usize) -> Object {
    Shape::Dot(Point(x, y)).colored(Color::Red)
}

#[test]
fn set_then_get_gives_back_the_object() {
    let mut layer = Layer::new("l");
    layer.set("a", dot(1, 1));
    layer.set("b", dot(2, 2));
    layer.set("a", dot(3, 3));
    assert_eq!(layer.objects.len(), 2);
    assert_eq!(layer.objects[0].0, "a");
    assert!(matches!(layer.objects[0].1.shape, Shape::Dot(Point(3, 3))));
    assert!(matches!(layer.objects[1].1.shape, Shape::Dot(Point(2, 2))));
    assert!(matches!(layer.safe_object("b").unwrap().shape, Shape::Dot(Point(2, 2))));
    assert!(layer.safe_object("c").is_none());
}

#[test]
fn removed_object_is_gone() {
    let mut layer = Layer::new("l");
    layer.add("a", dot(1, 1));
    layer.add("b", dot(2, 2));
    layer.remove_object("a");
    assert_eq!(layer.objects.len(), 1);
    assert!(layer.safe_object("a").is_none());
    layer.remove_object("nothing");
    assert_eq!(layer.objects.len(), 1);
}

#[test]
fn replaced_object_goes_last() {
    let mut layer = Layer::new("l");
    layer.add("a", dot(1, 1));
    layer.add("b", dot(2, 2));
    layer.replace_object("a", dot(5, 5));
    assert_eq!(layer.objects[0].0, "b");
    assert_eq!(layer.objects[1].0, "a");
    assert!(matches!(layer.objects[1].1.shape, Shape::Dot(Point(5, 5))));
}

#[test]
fn anonymous_objects_are_numbered() {
    let mut layer = Layer::new("l");
    layer.add_anon(dot(0, 0));
    layer.add_objects(vec![dot(1, 1), dot(2, 2)]);
    let names: Vec<&str> = layer.objects.iter().map(|(n, _)| n.as_str()).collect();
    assert_eq!(names, vec!["anon-0", "anon-1", "anon-2"]);
}

#[test]
fn filtering_a_missing_object_is_an_error() {
    let mut layer = Layer::new("l");
    layer.add("a", dot(1, 1));
    assert_eq!(layer.filter_object("x", Filter::glow(shapemaker::graphics::Scalar(0))), Err("Object 'x' not found".to_string()));
    assert_eq!(layer.filter_object("a", Filter::glow(shapemaker::graphics::Scalar(0))), Ok(()));
    assert_eq!(layer.objects[0].1.filters.len(), 1);
}

#[test]
fn toggling_twice_restores_visibility() {
    let mut layer = Layer::new("l");
    assert!(!layer.hidden);
    layer.toggle();
    assert!(layer.hidden);
    layer.toggle();
    assert!(!layer.hidden);
    layer.hide_layer();
    assert!(layer.hidden);
    layer.show();
    assert!(!layer.hidden);
}

#[test]
fn tags_select_objects() {
    let mut layer = Layer::new("l");
    layer.add("a", dot(1, 1));
    layer.add("b", dot(2, 2));
    layer.add("c", dot(3, 3));
    layer.tag_objects("even", |_, o: &Object| matches!(o.shape, Shape::Dot(Point(2, 2))));
    assert_eq!(layer.objects_with_tag("even"), vec!["b".to_string()]);
    assert!(layer.objects[1].1.has_tag("even"));
    assert!(!layer.objects[0].1.has_tag("even"));
}

#[test]
fn objects_in_a_region_are_removed() {
    let mut layer = Layer::new("l");
    layer.add("a", dot(1, 1));
    layer.add("b", dot(5, 5));
    layer.remove_all_objects_in(&Region { start: Point(0, 0), end: Point(2, 2) });
    assert_eq!(layer.objects.len(), 1);
    assert_eq!(layer.objects[0].0, "b");
}

#[test]
fn painting_fills_every_object() {
    let mut layer = Layer::new("l");
    layer.add("a", Object::from(Shape::Dot(Point(1, 1))));
    layer.add("b", dot(2, 2));
    layer.paint_all_objects(Fill::Solid(Color::Blue));
    assert!(layer.objects.iter().all(|(_, o)| o.fill == Some(Fill::Solid(Color::Blue))));
}

#[test]
fn region_merges_only_the_objects_regions() {
    let mut layer = Layer::new("l");
    assert_eq!(layer.region(), Region { start: Point(0, 0), end: Point(0, 0) });
    layer.set("d", dot(5, 5));
    assert_eq!(layer.region(), Region { start: Point(5, 5), end: Point(5, 5) });
    layer.set("e", dot(7, 6));
    assert_eq!(layer.region(), Region { start: Point(5, 5), end: Point(7, 6) });
}

#[test]
fn translating_a_shape_there_and_back_restores_it() {
    let width = shapemaker::graphics::Scalar(7);
    let mut s = Shape::Line(Point(2, 3), Point(5, 1), width);
    s.translate(4, 2);
    assert_eq!(s.position(), Point(6, 5));
    s.translate(-4, -2);
    assert!(matches!(s, Shape::Line(Point(2, 3), Point(5, 1), w) if w == width));
}
