//! The laws the library keeps across its operations.
use vstd::prelude::*;
use crate::geometry::point::{can_shift, shifted, Point};
use crate::geometry::region::{clamped_shift, tail, Region};
use crate::graphics::shapes::{
    coord, polygon_region, side, line_params, same_side, LineSegment, segment_anchor, segment_translated, segments_intersect, Shape,
};
use crate::graphics::canvas::{initial_layers, precedes, stable_reordering};
use crate::graphics::layer::{
    default_layer, entry_names, merged_regions, lemma_name_index, lemma_name_index_unique, remove_outcome,
    set_outcome, Layer,
};
use crate::graphics::objects::Object;
use crate::graphics::fill::{opacified, Fill};
use crate::graphics::scalar::Scalar;
use crate::rendering::pairs::{
    joined_values, keys_distinct, lemma_merge_pairs_lookup, lookup, merged_maps, values_in_maps,
};
use crate::synchronization::sync::{first_named, first_named_after, range_in, stem_map};
use crate::text::{lex_lt, lex_lt_from};
use crate::rendering::compose::{drawn_before, in_drawing_order};
use crate::Toggleable;

verus! {

/// The merge of two regions holds both.
pub proof fn law_merge_holds_both(a: Region, b: Region)
    ensures
        a.spec_within(a.spec_merge(b)),
        b.spec_within(a.spec_merge(b)),
{
}

proof fn lemma_cast_round_trip(c: usize, d: i32)
    requires
        c <= i32::MAX,
        c + d >= 0,
        i32::MIN <= (c as i32) + d <= i32::MAX,
    ensures
        (clamped_shift(c, d) as i32) - (c as i32) == d,
{
    assert(c as i32 == c) by (bit_vector)
        requires
            c <= 0x7fff_ffffusize,
    ;
    let s: i32 = ((c as i32) + d) as i32;
    assert(s >= 0);
    assert((s as usize) as i32 == s) by (bit_vector)
        requires
            s >= 0,
    ;
}

/// Translating a region, then subtracting the original from it, gives the translation back,
/// when the start stays on the grid and within `i32`.
pub proof fn law_translate_then_sub(a: Region, dx: i32, dy: i32)
    requires
        a.can_translate(dx, dy),
        a.start.0 <= i32::MAX,
        a.start.1 <= i32::MAX,
        a.start.0 + dx >= 0,
        a.start.1 + dy >= 0,
    ensures
        a.spec_translated(dx, dy).spec_offset(a) == (dx as int, dy as int),
{
    lemma_cast_round_trip(a.start.0, dx);
    lemma_cast_round_trip(a.start.1, dy);
}

/// Setting an object under a name, then looking the name up, gives the object back.
pub proof fn law_set_then_get(before: Layer, after: Layer, name: Seq<char>, object: Object)
    requires
        set_outcome(before, after, name, object),
        before.wf(),
    ensures
        after.wf(),
        after.has(name),
        after.get(name) == object,
{
}

/// Adding an object under a name not in use, then removing that name, gives back the objects
/// the layer had.
pub proof fn law_remove_undoes_add(
    before: Layer,
    added: Layer,
    after: Layer,
    name: Seq<char>,
    object: Object,
)
    requires
        before.wf(),
        !before.has(name),
        entry_names(added.objects@) == entry_names(before.objects@).push(name),
        added.objects@.drop_last() == before.objects@,
        added.objects@.last().1 == object,
        remove_outcome(added, after, name),
    ensures
        after.objects@ == before.objects@,
        !after.has(name),
{
    let n = before.objects@.len();
    assert(added.objects@.len() == n + 1) by {
        assert(entry_names(added.objects@).len() == added.objects@.len());
        assert(entry_names(before.objects@).len() == before.objects@.len());
    }
    assert(added.objects@[n as int].0@ == name) by {
        assert(entry_names(added.objects@)[n as int] == added.objects@[n as int].0@);
    }
    lemma_name_index(before.objects@, name);
    assert(added.wf()) by {
        assert forall|i: int, j: int|
            0 <= i < added.objects@.len() && 0 <= j < added.objects@.len() && i
                != j implies added.objects@[i].0@ != added.objects@[j].0@ by {
            if i < n {
                assert(added.objects@[i] == before.objects@[i]);
            }
            if j < n {
                assert(added.objects@[j] == before.objects@[j]);
            }
        }
    }
    lemma_name_index_unique(added.objects@, name, n as int);
    assert(added.objects@.remove(n as int) =~= added.objects@.drop_last());
}

/// A flag toggled twice is back to where it was.
pub proof fn law_toggle_twice(b: bool)
    ensures
        b.toggled().toggled() == b,
{
}

/// The layers a canvas starts with always include one named `root`.
pub proof fn law_new_canvas_has_root(layers: Seq<Layer>, names: Seq<Seq<char>>)
    requires
        initial_layers(layers, names),
    ensures
        exists|i: int| 0 <= i < layers.len() && (#[trigger] layers[i]).name@ == "root"@,
{
    if names.contains("root"@) {
        let i = choose|i: int| 0 <= i < names.len() && names[i] == "root"@;
        assert(default_layer(layers[i], names[i]));
    } else {
        assert(default_layer(layers[names.len() as int], "root"@));
    }
}

/// Merging in data that holds nothing changes nothing of the stems and markers.
pub proof fn law_merge_with_nothing<S>(stems: Seq<(String, S)>, markers: Map<usize, String>)
    ensures
        stem_map(stems).union_prefer_right(stem_map(Seq::<(String, S)>::empty())) == stem_map(
            stems,
        ),
        markers.union_prefer_right(Map::<usize, String>::empty()) == markers,
{
    assert(stem_map(stems).union_prefer_right(stem_map(Seq::<(String, S)>::empty())) =~= stem_map(
        stems,
    ));
    assert(markers.union_prefer_right(Map::<usize, String>::empty()) =~= markers);
}

proof fn lemma_first_named(walk: Seq<(usize, String)>, marker: Seq<char>, from: int)
    requires
        0 <= from,
    ensures
        first_named(walk, marker, from) >= 0 ==> from <= first_named(walk, marker, from)
            < walk.len() && walk[first_named(walk, marker, from)].1@ == marker,
    decreases walk.len() - from,
{
    if from < walk.len() && walk[from].1@ != marker {
        lemma_first_named(walk, marker, from + 1);
    }
}

proof fn lemma_first_named_after(
    walk: Seq<(usize, String)>,
    marker: Seq<char>,
    after: usize,
    from: int,
)
    requires
        0 <= from,
    ensures
        first_named_after(walk, marker, after, from) >= 0 ==> {
            let i = first_named_after(walk, marker, after, from);
            &&& from <= i < walk.len()
            &&& walk[i].1@ == marker
            &&& walk[i].0 > after
        },
    decreases walk.len() - from,
{
    if from < walk.len() && !(walk[from].1@ == marker && walk[from].0 > after) {
        lemma_first_named_after(walk, marker, after, from + 1);
    }
}

/// A marker's range, when found, goes forward in time between two markers of that name.
pub proof fn law_marker_range_is_forward(walk: Seq<(usize, String)>, marker: Seq<char>)
    ensures
        range_in(walk, marker) matches Some(r) ==> {
            &&& r.start < r.end
            &&& exists|i: int| 0 <= i < walk.len() && walk[i] == (r.start, walk[i].1) && walk[i].1@
                == marker
            &&& exists|j: int| 0 <= j < walk.len() && walk[j] == (r.end, walk[j].1) && walk[j].1@
                == marker
        },
{
    lemma_first_named(walk, marker, 0);
    let s = first_named(walk, marker, 0);
    if s >= 0 {
        lemma_first_named_after(walk, marker, walk[s].0, 0);
    }
}

/// Reordering by an empty order keeps every layer where it is.
pub proof fn law_reorder_without_order_keeps_layers(names: Seq<Seq<char>>, p: Seq<int>)
    requires
        stable_reordering(names, Seq::<Seq<char>>::empty(), p),
    ensures
        forall|i: int| 0 <= i < p.len() ==> p[i] == i,
{
    let order = Seq::<Seq<char>>::empty();
    let n = names.len() as int;
    assert forall|a: int, b: int| 0 <= a < b < n implies p[a] < p[b] by {
        assert(precedes(names, order, p[a], p[b]));
        assert(!order.contains(names[p[a]]));
        assert(!order.contains(names[p[b]]));
    }
    lemma_increasing_is_identity(p, n);
}

/// A strictly increasing list of `n` numbers from `0` to `n - 1` lists them all in order.
proof fn lemma_increasing_is_identity(p: Seq<int>, n: int)
    requires
        p.len() == n,
        forall|i: int| 0 <= i < n ==> 0 <= #[trigger] p[i] < n,
        forall|a: int, b: int| 0 <= a < b < n ==> p[a] < p[b],
    ensures
        forall|i: int| 0 <= i < n ==> p[i] == i,
{
    assert forall|i: int| 0 <= i < n implies p[i] >= i by {
        lemma_increasing_lower(p, n, i);
    }
    assert forall|i: int| 0 <= i < n implies p[i] <= i by {
        lemma_increasing_upper(p, n, i);
    }
}

proof fn lemma_increasing_lower(p: Seq<int>, n: int, i: int)
    requires
        p.len() == n,
        0 <= i < n,
        forall|k: int| 0 <= k < n ==> 0 <= #[trigger] p[k] < n,
        forall|a: int, b: int| 0 <= a < b < n ==> p[a] < p[b],
    ensures
        p[i] >= i,
    decreases i,
{
    if i > 0 {
        lemma_increasing_lower(p, n, i - 1);
        assert(p[i - 1] < p[i]);
    }
}

proof fn lemma_increasing_upper(p: Seq<int>, n: int, i: int)
    requires
        p.len() == n,
        0 <= i < n,
        forall|k: int| 0 <= k < n ==> 0 <= #[trigger] p[k] < n,
        forall|a: int, b: int| 0 <= a < b < n ==> p[a] < p[b],
    ensures
        p[i] <= i,
    decreases n - i,
{
    if i < n - 1 {
        lemma_increasing_upper(p, n, i + 1);
        assert(p[i] < p[i + 1]);
    }
}

/// Opacifying twice keeps the last opacity only.
pub proof fn law_opacify_twice(f: Fill, first: Scalar, second: Scalar)
    ensures
        opacified(opacified(f, first), second) == opacified(f, second),
{
}

proof fn lemma_rows_in_region(r: Region, y: int)
    requires
        r.start.0 <= r.end.0,
        y <= r.end.1,
    ensures
        forall|i: int|
            0 <= i < r.rows_through(y).len() ==> r.spec_contains(#[trigger] r.rows_through(y)[i]),
    decreases y - r.start.1 + 1,
{
    if y >= r.start.1 {
        lemma_rows_in_region(r, y - 1);
        let before = r.rows_through(y - 1);
        let row = crate::geometry::region::row(r.start.0, r.end.0, y as usize);
        assert forall|i: int| 0 <= i < r.rows_through(y).len() implies r.spec_contains(
            #[trigger] r.rows_through(y)[i],
        ) by {
            if i < before.len() {
                assert(r.rows_through(y)[i] == before[i]);
            } else {
                assert(r.rows_through(y)[i] == row[i - before.len()]);
            }
        }
    }
}

/// Every point that iterating a region yields lies in the region, when its start is not right
/// of its end.
pub proof fn law_points_in_region(r: Region)
    requires
        r.start.0 <= r.end.0,
    ensures
        forall|i: int|
            0 <= i < r.spec_points().len() ==> r.spec_contains(#[trigger] r.spec_points()[i]),
{
    lemma_rows_in_region(r, r.end.1 as int);
}

/// Merging attribute lists binds each key to the values that the lists give it, in the
/// order of the lists, joined by the separator; a key that no list binds stays unbound.
pub proof fn law_merged_attributes_join_values(
    maps: Seq<Seq<(Seq<char>, Seq<char>)>>,
    join: Seq<char>,
    k: Seq<char>,
)
    ensures
        lookup(merged_maps(maps, join), k) == joined_values(values_in_maps(maps, k), join),
        keys_distinct(merged_maps(maps, join)),
    decreases maps.len(),
{
    if maps.len() > 0 {
        law_merged_attributes_join_values(maps.drop_last(), join, k);
        lemma_merge_pairs_lookup(
            merged_maps(maps.drop_last(), join),
            maps.last(),
            join,
            k,
            values_in_maps(maps.drop_last(), k),
        );
    }
}

/// Moving coordinate `c` by `d` and back stays within `i32` and off the negative side.
pub open spec fn shift_fits(c: usize, d: i32) -> bool {
    c <= i32::MAX && 0 <= c + d <= i32::MAX
}

/// Moving `p` by `(dx, dy)` and back stays within `i32` and on the grid.
pub open spec fn round_trip_fits(p: Point, dx: i32, dy: i32) -> bool {
    shift_fits(p.0, dx) && shift_fits(p.1, dy)
}

proof fn lemma_shift_back(c: usize, d: i32)
    requires
        shift_fits(c, d),
    ensures
        shifted(shifted(c, d), (-d) as i32) == c,
        clamped_shift(clamped_shift(c, d), (-d) as i32) == c,
        clamped_shift(c, d) == shifted(c, d),
        can_shift(c, d),
        can_shift(shifted(c, d), (-d) as i32),
{
    assert(c as i32 == c) by (bit_vector)
        requires
            c <= 0x7fff_ffffusize,
    ;
    let m = ((c as i32) + d) as usize;
    assert(m == c + d);
    assert(m as i32 == m) by (bit_vector)
        requires
            m <= 0x7fff_ffffusize,
    ;
}

/// Translating a point by `(dx, dy)`, then by `(-dx, -dy)`, gives the point back, when the
/// moves stay within `i32` and on the grid.
pub proof fn law_point_translate_round_trip(p: Point, dx: i32, dy: i32)
    requires
        round_trip_fits(p, dx, dy),
    ensures
        p.can_translate(dx, dy),
        p.spec_translated(dx, dy).can_translate((-dx) as i32, (-dy) as i32),
        p.spec_translated(dx, dy).spec_translated((-dx) as i32, (-dy) as i32) == p,
{
    lemma_shift_back(p.0, dx);
    lemma_shift_back(p.1, dy);
}

/// Translating a region by `(dx, dy)`, then by `(-dx, -dy)`, gives the region back, when the
/// moves stay within `i32` and on the grid.
pub proof fn law_region_translate_round_trip(r: Region, dx: i32, dy: i32)
    requires
        round_trip_fits(r.start, dx, dy),
        round_trip_fits(r.end, dx, dy),
    ensures
        r.can_translate(dx, dy),
        r.spec_translated(dx, dy).can_translate((-dx) as i32, (-dy) as i32),
        r.spec_translated(dx, dy).spec_translated((-dx) as i32, (-dy) as i32) == r,
{
    lemma_shift_back(r.start.0, dx);
    lemma_shift_back(r.start.1, dy);
    lemma_shift_back(r.end.0, dx);
    lemma_shift_back(r.end.1, dy);
}

/// Every point of the shape can move by `(dx, dy)` and back within `i32` and on the grid;
/// raw SVG cannot move.
pub open spec fn shape_round_trip_fits(s: Shape, dx: i32, dy: i32) -> bool {
    match s {
        Shape::Polygon(start, lines) => round_trip_fits(start, dx, dy) && forall|i: int|
            0 <= i < lines@.len() ==> round_trip_fits(
                #[trigger] segment_anchor(lines@[i]),
                dx,
                dy,
            ),
        Shape::Line(a, b, _) | Shape::CurveInward(a, b, _) | Shape::CurveOutward(a, b, _)
        | Shape::Rectangle(a, b) => round_trip_fits(a, dx, dy) && round_trip_fits(b, dx, dy),
        Shape::Text(p, _, _) | Shape::CenteredText(p, _, _) | Shape::Dot(p) | Shape::BigDot(p)
        | Shape::BigCircle(p) | Shape::SmallCircle(p) => round_trip_fits(p, dx, dy),
        Shape::Image(r, _) => round_trip_fits(r.start, dx, dy) && round_trip_fits(r.end, dx, dy),
        Shape::Component { at, .. } => round_trip_fits(at, dx, dy),
        Shape::RawSVG(_) => false,
    }
}

/// Two shapes agree field for field, lists of sides by their elements.
pub open spec fn same_fields(a: Shape, b: Shape) -> bool {
    match (a, b) {
        (Shape::Polygon(s, l), Shape::Polygon(s2, l2)) => s == s2 && l@ == l2@,
        (Shape::Line(s, e, w), Shape::Line(s2, e2, w2)) => s == s2 && e == e2 && w == w2,
        (Shape::CurveOutward(s, e, w), Shape::CurveOutward(s2, e2, w2)) => s == s2 && e == e2
            && w == w2,
        (Shape::CurveInward(s, e, w), Shape::CurveInward(s2, e2, w2)) => s == s2 && e == e2 && w
            == w2,
        (Shape::Rectangle(s, e), Shape::Rectangle(s2, e2)) => s == s2 && e == e2,
        (Shape::SmallCircle(p), Shape::SmallCircle(p2)) => p == p2,
        (Shape::BigDot(p), Shape::BigDot(p2)) => p == p2,
        (Shape::Dot(p), Shape::Dot(p2)) => p == p2,
        (Shape::BigCircle(p), Shape::BigCircle(p2)) => p == p2,
        (Shape::Text(p, t, sz), Shape::Text(p2, t2, sz2)) => p == p2 && t == t2 && sz == sz2,
        (Shape::CenteredText(p, t, sz), Shape::CenteredText(p2, t2, sz2)) => p == p2 && t == t2
            && sz == sz2,
        (Shape::Image(r, src), Shape::Image(r2, src2)) => r == r2 && src == src2,
        (
            Shape::Component { at, size, objects },
            Shape::Component { at: at2, size: size2, objects: objects2 },
        ) => at == at2 && size == size2 && objects == objects2,
        _ => false,
    }
}

/// Translating a shape by `(dx, dy)` moves its position by `(dx, dy)`, and translating the
/// result by `(-dx, -dy)` gives the shape back field for field, when every point's moves stay
/// within `i32` and on the grid (the translations can then be made: see
/// `law_shape_translatable`).
pub proof fn law_shape_translate_round_trip(s: Shape, t: Shape, u: Shape, dx: i32, dy: i32)
    requires
        shape_round_trip_fits(s, dx, dy),
        s.moved_to(t, dx, dy),
        t.moved_to(u, (-dx) as i32, (-dy) as i32),
    ensures
        t.spec_position() == s.spec_position().spec_translated(dx, dy),
        same_fields(s, u),
{
    match (s, t, u) {
        (Shape::Polygon(a, l), Shape::Polygon(_, l2), Shape::Polygon(_, l3)) => {
            law_point_translate_round_trip(a, dx, dy);
            assert forall|i: int| 0 <= i < l@.len() implies l3@[i] == l@[i] by {
                let p = segment_anchor(l@[i]);
                assert(round_trip_fits(p, dx, dy));
                law_point_translate_round_trip(p, dx, dy);
                assert(l2@[i] == segment_translated(l@[i], dx, dy));
            }
            assert(l3@ =~= l@);
        },
        (Shape::Image(r, _), _, _) => {
            law_region_translate_round_trip(r, dx, dy);
            lemma_shift_back(r.start.0, dx);
            lemma_shift_back(r.start.1, dy);
        },
        _ => {
            match s {
                Shape::Line(a, b, _) | Shape::CurveInward(a, b, _) | Shape::CurveOutward(a, b, _)
                | Shape::Rectangle(a, b) => {
                    law_point_translate_round_trip(a, dx, dy);
                    law_point_translate_round_trip(b, dx, dy);
                },
                Shape::Text(p, _, _) | Shape::CenteredText(p, _, _) | Shape::Dot(p)
                | Shape::BigDot(p) | Shape::BigCircle(p) | Shape::SmallCircle(p) => {
                    law_point_translate_round_trip(p, dx, dy);
                },
                Shape::Component { at, .. } => {
                    law_point_translate_round_trip(at, dx, dy);
                },
                _ => {},
            }
        },
    }
}

/// Whether two segments cross does not depend on which is asked about the other; segments
/// with both ends of one strictly on one side of the other's line do not cross; parallel or
/// collinear segments do not cross.
pub proof fn law_intersection_rules(s1: Point, e1: Point, s2: Point, e2: Point)
    ensures
        segments_intersect(s1, e1, s2, e2) == segments_intersect(s2, e2, s1, e1),
        same_side(s2, e2, s1, e1) ==> !segments_intersect(s1, e1, s2, e2),
        line_params(s1, e1).0 * line_params(s2, e2).1 == line_params(s2, e2).0 * line_params(
            s1,
            e1,
        ).1 ==> !segments_intersect(s1, e1, s2, e2),
{
}

proof fn lemma_moved_translatable(s: Shape, t: Shape, dx: i32, dy: i32)
    requires
        shape_round_trip_fits(s, dx, dy),
        s.moved_to(t, dx, dy),
    ensures
        t.can_translate((-dx) as i32, (-dy) as i32),
{
    match (s, t) {
        (Shape::Polygon(a, l), Shape::Polygon(_, l2)) => {
            law_point_translate_round_trip(a, dx, dy);
            assert forall|i: int| 0 <= i < l2@.len() implies #[trigger] segment_anchor(
                l2@[i],
            ).can_translate((-dx) as i32, (-dy) as i32) by {
                assert(round_trip_fits(segment_anchor(l@[i]), dx, dy));
                law_point_translate_round_trip(segment_anchor(l@[i]), dx, dy);
                assert(l2@[i] == segment_translated(l@[i], dx, dy));
            }
        },
        (Shape::Image(r, _), _) => {
            law_region_translate_round_trip(r, dx, dy);
            lemma_shift_back(r.start.0, dx);
            lemma_shift_back(r.start.1, dy);
            lemma_shift_back(r.end.0, dx);
            lemma_shift_back(r.end.1, dy);
        },
        _ => {
            match s {
                Shape::Line(a, b, _) | Shape::CurveInward(a, b, _) | Shape::CurveOutward(a, b, _)
                | Shape::Rectangle(a, b) => {
                    law_point_translate_round_trip(a, dx, dy);
                    law_point_translate_round_trip(b, dx, dy);
                },
                Shape::Text(p, _, _) | Shape::CenteredText(p, _, _) | Shape::Dot(p)
                | Shape::BigDot(p) | Shape::BigCircle(p) | Shape::SmallCircle(p) => {
                    law_point_translate_round_trip(p, dx, dy);
                },
                Shape::Component { at, .. } => {
                    law_point_translate_round_trip(at, dx, dy);
                },
                _ => {},
            }
        },
    }
}

/// When every point's moves stay within `i32` and on the grid, a shape can be translated by
/// `(dx, dy)`, and what that gives can be translated by `(-dx, -dy)`.
pub proof fn law_shape_translatable(s: Shape, dx: i32, dy: i32)
    requires
        shape_round_trip_fits(s, dx, dy),
    ensures
        s.can_translate(dx, dy),
        forall|t: Shape|
            #[trigger] s.moved_to(t, dx, dy) ==> t.can_translate((-dx) as i32, (-dy) as i32),
{
    match s {
        Shape::Polygon(a, l) => {
            law_point_translate_round_trip(a, dx, dy);
            assert forall|i: int| 0 <= i < l@.len() implies #[trigger] segment_anchor(
                l@[i],
            ).can_translate(dx, dy) by {
                law_point_translate_round_trip(segment_anchor(l@[i]), dx, dy);
            }
        },
        Shape::Line(a, b, _) | Shape::CurveInward(a, b, _) | Shape::CurveOutward(a, b, _)
        | Shape::Rectangle(a, b) => {
            law_point_translate_round_trip(a, dx, dy);
            law_point_translate_round_trip(b, dx, dy);
        },
        Shape::Text(p, _, _) | Shape::CenteredText(p, _, _) | Shape::Dot(p) | Shape::BigDot(p)
        | Shape::BigCircle(p) | Shape::SmallCircle(p) => {
            law_point_translate_round_trip(p, dx, dy);
        },
        Shape::Image(r, _) => {
            law_region_translate_round_trip(r, dx, dy);
        },
        Shape::Component { at, .. } => {
            law_point_translate_round_trip(at, dx, dy);
        },
        Shape::RawSVG(_) => {},
    }
    assert forall|t: Shape| #[trigger] s.moved_to(t, dx, dy) implies t.can_translate(
        (-dx) as i32,
        (-dy) as i32,
    ) by {
        lemma_moved_translatable(s, t, dx, dy);
    }
}

/// Within is transitive.
proof fn lemma_within_transitive(a: Region, b: Region, c: Region)
    requires
        a.spec_within(b),
        b.spec_within(c),
    ensures
        a.spec_within(c),
{
}

/// The region of a polygon only grows as sides are added: it holds the region of the
/// polygon made of any first sides; and a side whose region from the start holds the region
/// of the sides before it lies in the polygon's region.
pub proof fn law_polygon_region_grows(start: Point, lines: Seq<LineSegment>, k: int)
    requires
        0 <= k <= lines.len(),
    ensures
        polygon_region(start, lines.take(k)).spec_within(polygon_region(start, lines)),
        k < lines.len() && polygon_region(start, lines.take(k)).spec_within(
            Region { start, end: segment_anchor(lines[k]) },
        ) ==> (Region { start, end: segment_anchor(lines[k]) }).spec_within(
            polygon_region(start, lines),
        ),
    decreases lines.len() - k,
{
    if k < lines.len() {
        law_polygon_region_grows(start, lines, k + 1);
        let prefix = lines.take(k + 1);
        assert(prefix.drop_last() =~= lines.take(k));
        assert(prefix.last() == lines[k]);
        lemma_within_transitive(
            polygon_region(start, lines.take(k)),
            polygon_region(start, prefix),
            polygon_region(start, lines),
        );
    } else {
        assert(lines.take(k) =~= lines);
    }
}

/// Two points are on the same side of a line exactly when their side values have the same
/// sign and neither is zero.
pub proof fn law_same_side_is_same_sign(p1: Point, p2: Point, s: Point, e: Point)
    ensures
        same_side(p1, p2, s, e) <==> side(p1, s, e) * side(p2, s, e) > 0,
{
    let d1 = side(p1, s, e);
    let d2 = side(p2, s, e);
    assert(d1 * d2 > 0 <==> (d1 > 0 && d2 > 0) || (d1 < 0 && d2 < 0)) by (nonlinear_arith);
}

/// Segments that each straddle the other's line, with their ends strictly on opposite sides
/// of it, cross.
pub proof fn law_straddling_segments_intersect(s1: Point, e1: Point, s2: Point, e2: Point)
    requires
        side(s2, s1, e1) * side(e2, s1, e1) < 0,
        side(s1, s2, e2) * side(e1, s2, e2) < 0,
    ensures
        segments_intersect(s1, e1, s2, e2),
{
    law_same_side_is_same_sign(s2, e2, s1, e1);
    law_same_side_is_same_sign(s1, e1, s2, e2);
    let (a1, b1, c1) = line_params(s1, e1);
    let (a2, b2, c2) = line_params(s2, e2);
    let (x2, y2) = (coord(s2.0), coord(s2.1));
    let (u2, v2) = (coord(e2.0), coord(e2.1));
    assert(side(e2, s1, e1) - side(s2, s1, e1) == a1 * (u2 - x2) + b1 * (v2 - y2)) by (
    nonlinear_arith)
        requires
            side(e2, s1, e1) == a1 * u2 + b1 * v2 + c1,
            side(s2, s1, e1) == a1 * x2 + b1 * y2 + c1,
    ;
    assert(a1 * (u2 - x2) + b1 * (v2 - y2) == a2 * b1 - a1 * b2) by (nonlinear_arith)
        requires
            a2 == v2 - y2,
            b2 == x2 - u2,
    ;
    if a1 * b2 == a2 * b1 {
        assert(side(e2, s1, e1) == side(s2, s1, e1));
        assert(side(s2, s1, e1) * side(e2, s1, e1) >= 0) by (nonlinear_arith)
            requires
                side(e2, s1, e1) == side(s2, s1, e1),
        ;
    }
}

proof fn lemma_prefix_from(a: Seq<char>, b: Seq<char>, i: int)
    requires
        0 <= i <= a.len(),
        b.len() > 0,
    ensures
        lex_lt_from(a, a + b, i),
        !lex_lt_from(a + b, a, i),
    decreases a.len() - i,
{
    if i < a.len() {
        assert((a + b)[i] == a[i]);
        lemma_prefix_from(a, b, i + 1);
    }
}

/// A text sorts before every longer text it begins, and never after it, as `String`'s
/// order has it: `circle` before `circle2`.
pub proof fn law_prefix_sorts_first(a: Seq<char>, b: Seq<char>)
    requires
        b.len() > 0,
    ensures
        lex_lt(a, a + b),
        !lex_lt(a + b, a),
{
    lemma_prefix_from(a, b, 0);
}

proof fn lemma_first_difference_from(a: Seq<char>, b: Seq<char>, k: int, i: int)
    requires
        0 <= i <= k < a.len(),
        k < b.len(),
        forall|j: int| 0 <= j < k ==> a[j] == b[j],
        a[k] < b[k],
    ensures
        lex_lt_from(a, b, i),
        !lex_lt_from(b, a, i),
    decreases k - i,
{
    if i < k {
        lemma_first_difference_from(a, b, k, i + 1);
    }
}

/// Texts that agree up to a place sort by their characters there: the one with the smaller
/// character comes first.
pub proof fn law_first_difference_decides(a: Seq<char>, b: Seq<char>, k: int)
    requires
        0 <= k < a.len(),
        k < b.len(),
        forall|j: int| 0 <= j < k ==> a[j] == b[j],
        a[k] < b[k],
    ensures
        lex_lt(a, b),
        !lex_lt(b, a),
{
    lemma_first_difference_from(a, b, k, 0);
}

/// In a layer's drawing order, an object whose name begins another object's longer name is
/// drawn before it: `circle` before `circle2`.
pub proof fn law_prefix_named_drawn_first(
    objects: Seq<(String, Object)>,
    p: Seq<int>,
    i: int,
    j: int,
    extra: Seq<char>,
)
    requires
        in_drawing_order(objects, p),
        0 <= i < p.len(),
        0 <= j < p.len(),
        extra.len() > 0,
        objects[p[j]].0@ == objects[p[i]].0@ + extra,
    ensures
        i < j,
{
    law_prefix_sorts_first(objects[p[i]].0@, extra);
    if j < i {
        assert(drawn_before(objects, p[j], p[i]));
        assert(objects[p[j]].0@.len() != objects[p[i]].0@.len());
    } else if i == j {
        assert(objects[p[j]].0@.len() != objects[p[i]].0@.len());
    }
}

/// A layer's region holds the region of every one of its objects, and lies within every
/// region that holds them all: it is the smallest such region.
pub proof fn law_layer_region_holds_every_object(objects: Seq<(String, Object)>, bound: Region)
    requires
        objects.len() > 0,
    ensures
        forall|i: int|
            0 <= i < objects.len() ==> (#[trigger] objects[i].1.shape.spec_region()).spec_within(
                merged_regions(objects),
            ),
        (forall|i: int|
            0 <= i < objects.len() ==> (#[trigger] objects[i].1.shape.spec_region()).spec_within(
                bound,
            )) ==> merged_regions(objects).spec_within(bound),
    decreases objects.len(),
{
    if objects.len() > 1 {
        let rest = objects.drop_last();
        law_layer_region_holds_every_object(rest, bound);
        let m = merged_regions(rest);
        let last = objects.last().1.shape.spec_region();
        law_merge_holds_both(m, last);
        assert forall|i: int|
            0 <= i < objects.len() implies (#[trigger] objects[i].1.shape.spec_region()).spec_within(
            merged_regions(objects),
        ) by {
            if i < objects.len() - 1 {
                assert(objects[i] == rest[i]);
                lemma_within_transitive(objects[i].1.shape.spec_region(), m, m.spec_merge(last));
            }
        }
        if forall|i: int|
            0 <= i < objects.len() ==> (#[trigger] objects[i].1.shape.spec_region()).spec_within(
                bound,
            ) {
            assert forall|i: int| 0 <= i < rest.len() implies (#[trigger] rest[i].1.shape.spec_region()).spec_within(
                bound,
            ) by {
                assert(objects[i] == rest[i]);
            }
            assert(objects[objects.len() - 1].1.shape.spec_region().spec_within(bound));
        }
    }
}

/// The outline of a region of `w` columns and `h` rows goes once around it clockwise from
/// the top-left corner back to it: it has `2w + 2h - 3` points, starts and ends at the
/// top-left corner, passes every point of the left edge, and every point of the top edge
/// left to right first.
pub proof fn law_outline_goes_around(r: Region)
    requires
        r.start.0 <= r.end.0,
        r.start.1 <= r.end.1,
    ensures
        r.spec_outline().len() == 2 * (r.end.0 - r.start.0 + 1) + 2 * (r.end.1 - r.start.1 + 1)
            - 3,
        r.spec_outline()[0] == r.start,
        r.spec_outline().last() == r.start,
        forall|i: int|
            0 <= i <= r.end.0 - r.start.0 ==> #[trigger] r.spec_outline()[i] == Point(
                (r.start.0 + i) as usize,
                r.start.1,
            ),
        forall|i: int|
            0 <= i <= r.end.1 - r.start.1 ==> r.spec_outline().contains(
                #[trigger] r.spec_left_edge()[i],
            ),
{
    let w = r.end.0 - r.start.0 + 1;
    let h = r.end.1 - r.start.1 + 1;
    let top = r.spec_top_edge();
    let right = tail(r.spec_right_edge());
    let bottom = tail(r.spec_bottom_edge().reverse());
    let left = tail(r.spec_left_edge().reverse());
    let o = r.spec_outline();
    assert(top.len() == w && right.len() == h - 1 && bottom.len() == w - 1 && left.len() == h
        - 1);
    assert(o == top + right + bottom + left);
    assert(o[0] == top[0]);
    assert forall|i: int| 0 <= i <= r.end.0 - r.start.0 implies #[trigger] o[i] == Point(
        (r.start.0 + i) as usize,
        r.start.1,
    ) by {
        assert(o[i] == top[i]);
    }
    // the last point
    if h >= 2 {
        assert(o.last() == left[h - 2]);
        assert(left[h - 2] == r.spec_left_edge().reverse()[h - 1]);
        assert(r.spec_left_edge().reverse()[h - 1] == r.spec_left_edge()[0]);
    } else if w >= 2 {
        assert(o.last() == bottom[w - 2]);
        assert(bottom[w - 2] == r.spec_bottom_edge().reverse()[w - 1]);
        assert(r.spec_bottom_edge().reverse()[w - 1] == r.spec_bottom_edge()[0]);
    } else {
        assert(o.last() == top[0]);
    }
    // the left edge
    assert forall|i: int| 0 <= i <= r.end.1 - r.start.1 implies o.contains(
        #[trigger] r.spec_left_edge()[i],
    ) by {
        let y = r.start.1 + i;
        let p = Point(r.start.0, y as usize);
        assert(r.spec_left_edge()[i] == p);
        if y == r.start.1 {
            assert(o[0] == p);
        } else if y < r.end.1 {
            let k = r.end.1 - y;
            assert(r.spec_left_edge().reverse()[k] == r.spec_left_edge()[h - 1 - k]);
            assert(left[k - 1] == r.spec_left_edge().reverse()[k]);
            assert(o[w + (h - 1) + (w - 1) + (k - 1)] == left[k - 1]);
        } else if w >= 2 {
            assert(bottom[w - 2] == r.spec_bottom_edge().reverse()[w - 1]);
            assert(r.spec_bottom_edge().reverse()[w - 1] == r.spec_bottom_edge()[0]);
            assert(o[w + (h - 1) + (w - 2)] == bottom[w - 2]);
        } else {
            assert(right[h - 2] == r.spec_right_edge()[h - 1]);
            assert(o[w + (h - 2)] == right[h - 2]);
        }
    }
}

} // verus!
