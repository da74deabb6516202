//! End-to-end tests of the visibility engine: the strip builder, the ray
//! caster, the visibility solver and the angular sorter, on concrete
//! scenes with hand-computed expected values.

use lightcast::line_segments_to_line_strips;
use lightcast::Hit;
use lightcast::LineSegment;
use lightcast::Point;
use lightcast::RayTracer;
use lightcast::StripError;

fn seg(x0: i64, y0: i64, x1: i64, y1: i64) -> LineSegment {
    LineSegment { x0, y0, x1, y1 }
}

fn pt(x: i64, y: i64) -> Point {
    Point { x, y }
}

/// The hit point equals `(x, y)` exactly, as a rational.
fn point_is(h: &Hit, x: i64, y: i64) -> bool {
    h.point.xn == (x as i128) * h.point.den && h.point.yn == (y as i128) * h.point.den
}

/// The relative distance equals `num / den` exactly, as a rational.
fn distance_is(h: &Hit, num: i128, den: i128) -> bool {
    h.relative_distance.num * den == num * h.relative_distance.den
}

/// A canonical key for multiset comparison of hits.
fn key(h: &Hit) -> (i64, i64, i128, i128, i128, i128, i128, u32, usize, bool) {
    (
        h.target_point.x,
        h.target_point.y,
        h.point.xn * h.relative_distance.den,
        h.point.yn * h.relative_distance.den,
        h.point.den * h.relative_distance.den,
        h.relative_distance.num,
        h.relative_distance.den,
        h.strip_id,
        h.segment_id,
        h.is_first_hit,
    )
}

/// Angle comparison used to check monotonicity of the sorted output:
/// the exact class-and-cross-product order the sorter is specified with.
fn angle_ge(source: &Point, a: &Hit, b: &Hit) -> bool {
    let ax = a.point.xn - (source.x as i128) * a.point.den;
    let ay = a.point.yn - (source.y as i128) * a.point.den;
    let bx = b.point.xn - (source.x as i128) * b.point.den;
    let by = b.point.yn - (source.y as i128) * b.point.den;
    let class = |x: i128, y: i128| -> i32 {
        if y < 0 {
            0
        } else if y == 0 && x >= 0 {
            1
        } else if y > 0 {
            2
        } else {
            3
        }
    };
    let ca = class(ax, ay);
    let cb = class(bx, by);
    if ca != cb {
        ca > cb
    } else if ca == 1 || ca == 3 {
        true
    } else {
        // same open half plane: b not strictly after a
        bx * ay - by * ax >= 0
    }
}

#[test]
fn closure_detection() {
    let lists = vec![
        vec![seg(100, 100, 100, 200), seg(100, 200, 200, 100), seg(200, 100, 100, 100)],
        vec![seg(700, 300, 700, 400)],
    ];
    let strips = line_segments_to_line_strips(&lists).unwrap();
    assert_eq!(strips.len(), 2);
    assert!(strips[0].is_closed);
    assert!(!strips[1].is_closed);
    assert_eq!(strips[0].id, 1);
    assert_eq!(strips[1].id, 2);
    assert_eq!(strips[0].points.len(), 4);
    assert_eq!(strips[0].points[0], pt(100, 100));
    assert_eq!(strips[0].points[3], pt(100, 100));
    assert_eq!(strips[1].points, vec![pt(700, 300), pt(700, 400)]);
}

#[test]
fn builder_rejects_empty_scene() {
    let lists: Vec<Vec<LineSegment>> = vec![];
    assert!(matches!(
        line_segments_to_line_strips(&lists),
        Err(StripError::EmptyScene)
    ));
}

#[test]
fn builder_rejects_empty_strip() {
    let lists = vec![vec![seg(0, 0, 1, 1)], vec![]];
    assert!(matches!(
        line_segments_to_line_strips(&lists),
        Err(StripError::InvalidStrip)
    ));
}

#[test]
fn builder_rejects_oversized_coordinate() {
    let lists = vec![vec![seg(0, 0, 200_000, 1)]];
    assert!(matches!(
        line_segments_to_line_strips(&lists),
        Err(StripError::CoordinateOutOfRange)
    ));
}

#[test]
fn builder_empty_strip_reported_before_oversized_coordinate() {
    let lists = vec![vec![seg(0, 0, 200_000, 1)], vec![]];
    assert!(matches!(
        line_segments_to_line_strips(&lists),
        Err(StripError::InvalidStrip)
    ));
}

#[test]
fn segment_intersection_known_point() {
    // ray (0,0)->(10,10) against the segment (0,10)-(10,0): they meet at
    // (5,5), halfway along the ray.
    let lists = vec![vec![seg(0, 10, 10, 0)]];
    let strips = line_segments_to_line_strips(&lists).unwrap();
    let tracer = RayTracer {};
    let hits = tracer.trace_ray(&pt(0, 0), &pt(10, 10), &strips);
    assert_eq!(hits.len(), 1);
    assert!(point_is(&hits[0], 5, 5));
    assert!(distance_is(&hits[0], 1, 2));
    assert_eq!(hits[0].strip_id, 1);
    assert_eq!(hits[0].segment_id, 0);
    assert!(hits[0].is_first_hit);
    assert_eq!(hits[0].target_point, pt(10, 10));
}

#[test]
fn no_false_intersection_outside_segment_range() {
    // the ray passes the segment's supporting line outside its [0,1]
    // parametric range
    let lists = vec![vec![seg(5, 2, 9, 2)]];
    let strips = line_segments_to_line_strips(&lists).unwrap();
    let tracer = RayTracer {};
    let hits = tracer.trace_ray(&pt(0, 0), &pt(1, 1), &strips);
    assert_eq!(hits.len(), 0);
}

#[test]
fn no_intersection_behind_source() {
    // the segment crosses the ray's supporting line strictly behind the
    // source
    let lists = vec![vec![seg(-3, -4, -3, -2)]];
    let strips = line_segments_to_line_strips(&lists).unwrap();
    let tracer = RayTracer {};
    let hits = tracer.trace_ray(&pt(0, 0), &pt(1, 1), &strips);
    assert_eq!(hits.len(), 0);
}

#[test]
fn vertical_ray_snaps_to_collinear_segment_endpoint() {
    // a vertical ray and a vertical segment on the same line: the hit
    // snaps to the endpoint nearest the source, at its exact relative
    // distance
    let lists = vec![vec![seg(0, 8, 0, 12)]];
    let strips = line_segments_to_line_strips(&lists).unwrap();
    let tracer = RayTracer {};
    let hits = tracer.trace_ray(&pt(0, 0), &pt(0, 5), &strips);
    assert_eq!(hits.len(), 1);
    assert!(point_is(&hits[0], 0, 8));
    assert!(distance_is(&hits[0], 8, 5));
}

#[test]
fn vertical_ray_ignores_non_collinear_segment() {
    // a segment that merely starts on the ray's line but runs across it
    // is not special-cased into a hit
    let lists = vec![vec![seg(0, 3, 5, 3)]];
    let strips = line_segments_to_line_strips(&lists).unwrap();
    let tracer = RayTracer {};
    let hits = tracer.trace_ray(&pt(0, 0), &pt(0, 5), &strips);
    assert_eq!(hits.len(), 0);
}

#[test]
fn zero_length_ray_yields_no_hits() {
    let lists = vec![vec![seg(0, 10, 10, 0)]];
    let strips = line_segments_to_line_strips(&lists).unwrap();
    let tracer = RayTracer {};
    let hits = tracer.trace_ray(&pt(3, 3), &pt(3, 3), &strips);
    assert_eq!(hits.len(), 0);
}

#[test]
fn degenerate_ray_at_source_vertex_is_safe() {
    // one strip vertex coincides with the source: its cast is a
    // zero-length ray and contributes nothing, without crashing
    let lists = vec![vec![seg(0, 0, 10, 0)]];
    let strips = line_segments_to_line_strips(&lists).unwrap();
    let tracer = RayTracer {};
    let hits = tracer.trace(&pt(0, 0), &strips);
    // vertex (0,0): zero-length ray, nothing; vertex (10,0): its ray runs
    // along the segment and snaps to the near endpoint (0,0) at distance 0
    assert_eq!(hits.len(), 1);
    assert!(point_is(&hits[0], 0, 0));
    assert!(distance_is(&hits[0], 0, 1));
    assert!(hits[0].is_first_hit);
}

fn square(x: i64, y: i64, side: i64) -> Vec<LineSegment> {
    vec![
        seg(x, y, x + side, y),
        seg(x + side, y, x + side, y + side),
        seg(x + side, y + side, x, y + side),
        seg(x, y + side, x, y),
    ]
}

#[test]
fn single_occluder_primary_hit_count() {
    // a closed square obstacle inside a larger bounding square, the
    // source outside both: every corner of the inner square yields
    // exactly one primary hit, and none of those casts reaches its corner
    let lists = vec![square(0, 0, 40), square(15, 15, 10)];
    let strips = line_segments_to_line_strips(&lists).unwrap();
    let tracer = RayTracer {};
    let source = pt(-10, 20);
    let hits = tracer.trace(&source, &strips);
    let inner_corners =
        [pt(15, 15), pt(25, 15), pt(25, 25), pt(15, 25)];
    let mut primary_per_corner = [0usize; 4];
    for h in &hits {
        if let Some(c) = inner_corners.iter().position(|c| *c == h.target_point) {
            if h.is_first_hit {
                primary_per_corner[c] += 1;
                // the inner corner is occluded by the outer square: the
                // nearest obstruction lies strictly before the corner
                assert!(h.relative_distance.num < h.relative_distance.den);
            }
        }
    }
    assert_eq!(primary_per_corner, [1, 1, 1, 1]);
    // in this scene no corner peek fires at all: one primary hit per
    // processed vertex, eight in total
    assert_eq!(hits.len(), 8);
    assert!(hits.iter().all(|h| h.is_first_hit));
}

#[test]
fn corner_peek_reveals_geometry_behind_a_grazed_vertex() {
    // strip 1 is an open vertical segment whose lower endpoint is grazed
    // by the ray; strip 2 is a longer vertical wall behind it. Peeking
    // past the grazed endpoint must record the wall hit as a secondary,
    // not-first hit.
    let lists = vec![vec![seg(5, 3, 5, 1)], vec![seg(10, 5, 10, -5)]];
    let strips = line_segments_to_line_strips(&lists).unwrap();
    let tracer = RayTracer {};
    let source = pt(0, 0);
    let hits = tracer.trace(&source, &strips);
    assert_eq!(hits.len(), 5);
    let secondary: Vec<&Hit> = hits.iter().filter(|h| !h.is_first_hit).collect();
    assert_eq!(secondary.len(), 1);
    let peek = secondary[0];
    assert!(point_is(peek, 10, 2));
    assert!(distance_is(peek, 2, 1));
    assert_eq!(peek.strip_id, 2);
    assert_eq!(peek.target_point, pt(5, 1));
    // the peek hit is recorded immediately before its vertex's first hit
    let vpos = hits
        .iter()
        .position(|h| h.is_first_hit && h.target_point == pt(5, 1))
        .unwrap();
    assert!(vpos >= 1);
    assert!(!hits[vpos - 1].is_first_hit);
}

#[test]
fn trace_ray_returns_hits_sorted_by_distance() {
    let lists = vec![vec![seg(5, 3, 5, 1)], vec![seg(10, 5, 10, -5)]];
    let strips = line_segments_to_line_strips(&lists).unwrap();
    let tracer = RayTracer {};
    let hits = tracer.trace_ray(&pt(0, 0), &pt(5, 1), &strips);
    assert_eq!(hits.len(), 2);
    assert!(distance_is(&hits[0], 1, 1));
    assert!(distance_is(&hits[1], 2, 1));
    for w in hits.windows(2) {
        assert!(
            w[0].relative_distance.num * w[1].relative_distance.den
                <= w[1].relative_distance.num * w[0].relative_distance.den
        );
    }
}

#[test]
fn angular_sort_is_a_cyclic_permutation_with_monotone_angles() {
    let lists = vec![square(0, 0, 40), square(15, 15, 10)];
    let strips = line_segments_to_line_strips(&lists).unwrap();
    let tracer = RayTracer {};
    let source = pt(-10, 20);
    let hits = tracer.trace(&source, &strips);
    let sorted = tracer.sort_hits(&source, &hits);
    assert_eq!(sorted.len(), hits.len());
    // same multiset of hits
    let mut a: Vec<_> = hits.iter().map(key).collect();
    let mut b: Vec<_> = sorted.iter().map(key).collect();
    a.sort();
    b.sort();
    assert_eq!(a, b);
    // consecutive angles non-increasing
    for w in sorted.windows(2) {
        assert!(angle_ge(&source, &w[0], &w[1]));
    }
}

#[test]
fn resort_of_sorted_output_is_unchanged() {
    let lists = vec![square(0, 0, 40), square(15, 15, 10)];
    let strips = line_segments_to_line_strips(&lists).unwrap();
    let tracer = RayTracer {};
    let source = pt(-10, 20);
    let hits = tracer.trace(&source, &strips);
    let sorted = tracer.sort_hits(&source, &hits);
    let resorted = tracer.sort_hits(&source, &sorted);
    assert_eq!(sorted, resorted);
}

#[test]
fn sort_hits_of_empty_input_is_empty() {
    let tracer = RayTracer {};
    let sorted = tracer.sort_hits(&pt(0, 0), &Vec::new());
    assert_eq!(sorted.len(), 0);
}

#[test]
fn hit_copy_preserves_every_field() {
    let lists = vec![vec![seg(0, 10, 10, 0)]];
    let strips = line_segments_to_line_strips(&lists).unwrap();
    let tracer = RayTracer {};
    let hits = tracer.trace_ray(&pt(0, 0), &pt(10, 10), &strips);
    let c = hits[0].copy();
    assert_eq!(c, hits[0]);
}

#[test]
fn rect_to_lines_builds_a_closed_square() {
    let lines = lightcast::rect_to_lines(300, 300, 100, 100);
    assert_eq!(
        lines,
        vec![
            seg(300, 300, 400, 300),
            seg(400, 300, 400, 400),
            seg(400, 400, 300, 400),
            seg(300, 400, 300, 300),
        ]
    );
    let strips = line_segments_to_line_strips(&vec![lines]).unwrap();
    assert!(strips[0].is_closed);
    assert_eq!(strips[0].points.len(), 5);
}

#[test]
fn polygon_to_lines_outlines_the_polygon() {
    let points = vec![pt(0, 0), pt(4, 0), pt(2, 3)];
    let lines = lightcast::polygon_to_lines(&points);
    assert_eq!(
        lines,
        vec![seg(0, 0, 4, 0), seg(4, 0, 2, 3), seg(0, 0, 2, 3)]
    );
}

fn axis_hit(strip_id: u32, x: i128) -> Hit {
    Hit {
        target_point: pt(1, 0),
        point: lightcast::RatPoint { xn: x, yn: 0, den: 1 },
        strip_id,
        segment_id: 0,
        relative_distance: lightcast::Rat { num: x, den: 1 },
        is_first_hit: true,
    }
}

#[test]
fn correction_pass_swaps_coincident_corner_triples() {
    // three hits at exactly the same angle (all on the positive x axis
    // from the source), from strips 2, 1, 2: at every position of the
    // circular sweep the two hits after it belong to different strips
    // while the hit itself shares the far one's strip, so each step
    // swaps, cascading the strip-1 hit to the front.
    let tracer = RayTracer {};
    let source = pt(0, 0);
    let h0 = axis_hit(2, 1);
    let h1 = axis_hit(1, 2);
    let h2 = axis_hit(2, 3);
    let sorted = tracer.sort_hits(&source, &vec![h0, h1, h2]);
    assert_eq!(sorted, vec![h2, h1, h0]);
}
