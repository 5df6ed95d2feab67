use rand::rngs::StdRng;
use rand::SeedableRng;
use shapemaker::geometry::{Point, Region};
use shapemaker::graphics::{Canvas, Color, Fill, LineSegment, Shape};

fn rng() -> StdRng {
    StdRng::seed_from_u64(7)
}

#[test]
fn random_except_never_gives_the_excluded_color() {
    let mut r = rng();
    for _ in 0..200 {
        assert_ne!(Color::random_except(&mut r, Color::Red), Color::Red);
    }
}

#[test]
fn random_solid_avoids_the_background() {
    let mut r = rng();
    for _ in 0..100 {
        let f = Fill::random_solid(&mut r, Some(Color::Black));
        assert!(matches!(f, Fill::Solid(c) if c != Color::Black));
    }
}

#[test]
fn random_points_lie_in_the_region() {
    let mut r = rng();
    let region = Region { start: Point(2, 3), end: Point(4, 3) };
    for _ in 0..100 {
        let p = Point::random(&mut r, &region);
        assert!(2 <= p.0 && p.0 <= 4 && p.1 == 3);
    }
}

#[test]
fn random_ends_are_diagonal_and_nearby() {
    let mut r = rng();
    let region = Region { start: Point(0, 0), end: Point(3, 3) };
    for _ in 0..100 {
        let start = Point(1, 2);
        let end = region.random_end(&mut r, start);
        assert_ne!(end, start);
        let dx = end.0 as i64 - 1;
        let dy = end.1 as i64 - 2;
        assert_eq!(dx.abs(), dy.abs());
        assert!(end.0 <= 4 && end.1 <= 4);
    }
}

#[test]
fn random_point_except_avoids_the_excluded_area() {
    let mut r = rng();
    let region = Region { start: Point(0, 0), end: Point(2, 2) };
    let except = Region { start: Point(0, 0), end: Point(2, 1) };
    for _ in 0..50 {
        let p = region.random_point_except(&mut r, &except);
        assert_eq!(p.1, 2);
    }
}

#[test]
fn random_polygons_have_sides_in_range() {
    let mut r = rng();
    let region = Region { start: Point(0, 0), end: Point(5, 5) };
    for _ in 0..50 {
        match Shape::random_polygon(&mut r, &region, 2..5) {
            Shape::Polygon(start, lines) => {
                assert!(start.0 <= 5 && start.1 <= 5);
                assert!(2 <= lines.len() && lines.len() < 5);
                for l in lines {
                    let p = match l {
                        LineSegment::Straight(p) => p,
                        LineSegment::InwardCurve(p) => p,
                        LineSegment::OutwardCurve(p) => p,
                    };
                    assert!(p.0 <= 5 && p.1 <= 5);
                }
            }
            _ => panic!("not a polygon"),
        }
    }
}

#[test]
fn random_curve_layers_are_numbered() {
    let mut r = rng();
    let mut c = Canvas::default_settings();
    c.set_background(Color::White);
    let layer = c.n_random_curves_within(&mut r, &Region { start: Point(0, 0), end: Point(2, 2) }, 4, "curves");
    let names: Vec<&str> = layer.objects.iter().map(|(n, _)| n.as_str()).collect();
    assert_eq!(names, vec!["curves#0", "curves#1", "curves#2", "curves#3"]);
    for (_, o) in &layer.objects {
        assert!(matches!(o.shape, Shape::CurveInward(..) | Shape::CurveOutward(..) | Shape::Line(..)));
        assert!(o.fill.is_none() || matches!(o.fill, Some(Fill::Solid(c)) if c != Color::White));
    }
    let layer = c.random_linelikes(&mut r, "lines");
    assert!(3 <= layer.objects.len() && layer.objects.len() < 7);
}

#[test]
fn random_regions_lie_in_the_world() {
    let mut r = rng();
    let mut c = Canvas::default_settings();
    for _ in 0..50 {
        let region = c.random_region(&mut r);
        assert!(region.start.0 <= region.end.0);
        assert!(region.end.0 <= 4 && region.end.1 <= 4);
    }
}

#[test]
fn a_drawn_kind_gives_its_shape() {
    let mut r = rng();
    let region = Region { start: Point(0, 0), end: Point(5, 5) };
    let width = shapemaker::graphics::Scalar(1);
    let start = Point(2, 3);
    assert!(matches!(Shape::random_of_kind(&mut r, 2, start, &region, width, 3..5), Shape::BigCircle(p) if p == start));
    assert!(matches!(Shape::random_of_kind(&mut r, 3, start, &region, width, 3..5), Shape::SmallCircle(p) if p == start));
    assert!(matches!(Shape::random_of_kind(&mut r, 4, start, &region, width, 3..5), Shape::Dot(p) if p == start));
    assert!(matches!(Shape::random_of_kind(&mut r, 1, start, &region, width, 3..5), Shape::Polygon(_, l) if (3..5).contains(&l.len())));
    assert!(matches!(Shape::random_of_kind(&mut r, 5, start, &region, width, 3..5), Shape::CurveInward(a, _, _) if a == start));
    assert!(matches!(Shape::random_of_kind(&mut r, 6, start, &region, width, 3..5), Shape::CurveOutward(a, _, _) if a == start));
    assert!(matches!(Shape::random_of_kind(&mut r, 7, start, &region, width, 3..5), Shape::Line(..)));
}
