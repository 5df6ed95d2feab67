use shapemaker::geometry::{Axis, Containable, Point, Region, RegionError};

#[test]
fn test_sub_and_transate_coherence() {
    let a = Region::from_origin(Point(3, 3)).unwrap();
    let mut b = a;
    b.translate(2, 3);

    assert_eq!(b - a, (2, 3));
}

#[test]
fn region_new_refuses_start_after_end() {
    let r = Region::new(Point(3, 1), Point(2, 5));
    assert_eq!(
        r,
        Err(RegionError::StartAfterEnd(Region { start: Point(3, 1), end: Point(2, 5) }))
    );
}

#[test]
fn region_new_refuses_coordinates_near_the_maximum() {
    let end = Point(usize::MAX - 5, 2);
    let r = Region::new(Point(0, 0), end);
    assert_eq!(r, Err(RegionError::NearMaximum(Region { start: Point(0, 0), end })));
}

#[test]
fn region_dimensions_count_both_ends() {
    let r = Region::new(Point(1, 2), Point(4, 2)).unwrap();
    assert_eq!(r.width(), 4);
    assert_eq!(r.height(), 1);
    assert_eq!(r.dimensions(), (4, 1));
}

#[test]
fn empty_region_is_refused_by_ensure_nonempty() {
    let r = Region { start: Point(2, 2), end: Point(1, 5) };
    assert!(r.is_empty());
    assert_eq!(r.ensure_nonempty(), Err(RegionError::Empty(r)));
    let full = Region { start: Point(0, 0), end: Point(0, 0) };
    assert_eq!(full.ensure_nonempty(), Ok(()));
}

#[test]
fn merged_region_contains_both() {
    let a = Region { start: Point(1, 4), end: Point(2, 6) };
    let b = Region { start: Point(3, 0), end: Point(5, 1) };
    let m = a.merge(&b);
    assert_eq!(m, Region { start: Point(1, 0), end: Point(5, 6) });
    assert!(a.within(&m));
    assert!(b.within(&m));
}

#[test]
fn region_points_are_in_rows() {
    let r = Region { start: Point(0, 0), end: Point(1, 1) };
    assert_eq!(r.points(), vec![Point(0, 0), Point(1, 0), Point(0, 1), Point(1, 1)]);
    for p in r.points() {
        assert!(r.contains(&p));
    }
    assert!(!r.contains(&Point(2, 0)));
}

#[test]
fn region_text_and_clip_path_id() {
    let r = Region { start: Point(1, 2), end: Point(3, 4) };
    assert_eq!(r.to_string(), "[(1, 2),(3, 4)]");
    assert_eq!(r.clip_path_id(), "clip-(1, 2)-(3, 4)");
    assert_eq!(Point(7, 0).to_string(), "(7, 0)");
}

#[test]
fn translating_a_region_moves_both_corners() {
    let r = Region { start: Point(1, 1), end: Point(2, 3) };
    assert_eq!(r.translated(2, -1), Region { start: Point(3, 0), end: Point(4, 2) });
    let mut p = Point(4, 4);
    p.translate(-1, 2);
    assert_eq!(p, Point(3, 6));
}

#[test]
fn split_cuts_at_half_the_end() {
    let r = Region { start: Point(0, 0), end: Point(4, 6) };
    let (top, bottom) = r.split(Axis::Horizontal);
    assert_eq!(top, Region { start: Point(0, 0), end: Point(4, 3) });
    assert_eq!(bottom, Region { start: Point(0, 3), end: Point(4, 6) });
    let (left, right) = r.split(Axis::Vertical);
    assert_eq!(left, Region { start: Point(0, 0), end: Point(2, 6) });
    assert_eq!(right, Region { start: Point(2, 0), end: Point(4, 6) });
}

#[test]
fn point_distance_counts_both_ends() {
    assert_eq!(Point(1, 5).distance_to(&Point(4, 2)), (4, 4));
}

#[test]
fn translating_there_and_back_restores() {
    let p = Point(3, 7);
    assert_eq!(p.translated(5, -4).translated(-5, 4), p);
    let r = Region { start: Point(1, 1), end: Point(4, 6) };
    assert_eq!(r.translated(-1, 3).translated(1, -3), r);
}

#[test]
fn except_keeps_the_iterated_points_outside() {
    let r = Region { start: Point(0, 0), end: Point(2, 1) };
    let hole = Region { start: Point(1, 0), end: Point(1, 1) };
    let iterated: Vec<Point> = {
        let mut it = r.iter();
        let mut v = vec![];
        while let Some(p) = it.next() {
            v.push(p);
        }
        v
    };
    assert_eq!(iterated, r.points());
    assert_eq!(r.except(&hole), vec![Point(0, 0), Point(2, 0), Point(0, 1), Point(2, 1)]);
}
