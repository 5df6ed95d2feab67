use rand::SeedableRng;
use shapemaker::examples::{colors_shed, grid, shapes_shed};
use shapemaker::geometry::Point;
use shapemaker::graphics::{Color, Fill, Shape};

#[test]
fn the_shapes_shed_holds_every_kind_of_shape() {
    let c = shapes_shed();
    assert_eq!(c.grid_size, (3, 3));
    assert_eq!(c.background, Some(Color::White));
    assert_eq!(c.layers.len(), 1);
    let objects = &c.layers[0].objects;
    assert_eq!(objects.len(), 8);
    assert_eq!(objects[0].0, "anon-0");
    assert_eq!(objects[7].0, "anon-7");
    assert!(matches!(objects[0].1.shape, Shape::BigCircle(Point(0, 0))));
    assert!(matches!(objects[6].1.shape, Shape::Dot(Point(2, 3))));
    assert!(objects.iter().all(|(_, o)| o.fill == Some(Fill::Solid(Color::Black))));
}

#[test]
fn the_colors_shed_paints_each_cell() {
    let c = colors_shed();
    assert_eq!(c.canvas_outter_padding, 0);
    assert_eq!(c.layers[0].name, "circles");
    assert_eq!(c.layers[1].name, "root");
    let objects = &c.layers[1].objects;
    assert_eq!(objects.len(), 9);
    assert!(matches!(objects[0].1.shape, Shape::Rectangle(Point(0, 0), Point(0, 0))));
    assert!(matches!(objects[4].1.shape, Shape::Rectangle(Point(1, 1), Point(1, 1))));
    assert_eq!(objects[0].1.fill, Some(Fill::Solid(Color::Blue)));
    assert_eq!(objects[8].1.fill, Some(Fill::Solid(Color::Green)));
}

#[test]
fn the_grid_has_a_dot_per_cell() {
    let c = grid();
    let objects = &c.layers[0].objects;
    assert_eq!(objects.len(), 9);
    assert!(matches!(objects[5].1.shape, Shape::Dot(Point(2, 1))));
}

#[test]
fn dna_analysis_machine_has_its_layers() {
    let mut rng = rand::rngs::StdRng::seed_from_u64(3);
    let sizes: Vec<shapemaker::graphics::Scalar> =
        (0..144).map(|i| shapemaker::graphics::Scalar(i)).collect();
    let c = shapemaker::examples::dna_analysis_machine(&mut rng, &sizes);
    assert_eq!(c.grid_size, (16, 9));
    assert_eq!(c.background, Some(Color::Black));
    let names: Vec<&str> = c.layers.iter().map(|l| l.name.as_str()).collect();
    assert_eq!(names, vec!["root", "strands", "red dot", "hatches"]);
    assert_eq!(c.layers[1].objects.len(), 30);
    assert_eq!(c.layers[1].objects[0].1.fill, Some(Fill::Solid(Color::Cyan)));
    assert_eq!(c.layers[1].objects[1].1.fill, Some(Fill::Solid(Color::Pink)));
    assert_eq!(c.layers[2].objects.len(), 1);
    // 14 by 7 cells, less the 3 by 3 strands, less the red dot's cell
    assert_eq!(c.layers[3].objects.len(), 98 - 9 - 1);
}
