//! Scene geometry: points, raw segments, and connected line strips.

use vstd::prelude::*;

use crate::num::COORD_LIMIT;

verus! {

/// A 2D coordinate. A plain value with no identity.
#[derive(Clone, Copy, Debug, PartialEq, Eq, Structural)]
pub struct Point {
    pub x: i64,
    pub y: i64,
}

/// The primitive unit obstacles are expressed in: a segment from
/// `(x0, y0)` to `(x1, y1)`.
#[derive(Clone, Copy, Debug, PartialEq, Eq, Structural)]
pub struct LineSegment {
    pub x0: i64,
    pub y0: i64,
    pub x1: i64,
    pub y1: i64,
}

/// Both coordinates of the point are within [`COORD_LIMIT`].
pub open spec fn point_in_bounds(p: Point) -> bool {
    &&& -COORD_LIMIT <= p.x <= COORD_LIMIT
    &&& -COORD_LIMIT <= p.y <= COORD_LIMIT
}

/// All four coordinates of the segment are within [`COORD_LIMIT`].
pub open spec fn segment_in_bounds(s: LineSegment) -> bool {
    &&& -COORD_LIMIT <= s.x0 <= COORD_LIMIT
    &&& -COORD_LIMIT <= s.y0 <= COORD_LIMIT
    &&& -COORD_LIMIT <= s.x1 <= COORD_LIMIT
    &&& -COORD_LIMIT <= s.y1 <= COORD_LIMIT
}

/// One obstacle: an ordered chain of points, derived from consecutive
/// segments sharing endpoints. `is_closed` records, once at construction,
/// whether the first and last point coincide; `id` is unique within one
/// scene, assigned sequentially from 1.
pub struct LineStrip {
    pub points: Vec<Point>,
    pub is_closed: bool,
    pub id: u32,
}

/// What every strip the engine works on satisfies: at least one point,
/// every point within bounds.
pub open spec fn strip_wf(s: LineStrip) -> bool {
    &&& s.points@.len() >= 1
    &&& forall|i: int| 0 <= i < s.points@.len() ==> point_in_bounds(#[trigger] s.points@[i])
}

/// Every strip of the scene is well-formed.
pub open spec fn strips_wf(ss: Seq<LineStrip>) -> bool {
    forall|i: int| 0 <= i < ss.len() ==> strip_wf(#[trigger] ss[i])
}

/// Why a scene was rejected by the strip builder.
#[derive(Clone, Copy, Debug, PartialEq, Eq, Structural)]
pub enum StripError {
    /// A strip built from zero segments has no points and cannot be traced.
    InvalidStrip,
    /// A scene with no obstacle at all.
    EmptyScene,
    /// A coordinate larger in magnitude than [`COORD_LIMIT`], outside the
    /// range the exact arithmetic is proved for.
    CoordinateOutOfRange,
}

/// The points of the strip built from `segs`: the start point of every
/// segment, then the end point of the last one.
pub open spec fn strip_points(segs: Seq<LineSegment>) -> Seq<Point> {
    Seq::new(
        segs.len() + 1,
        |i: int|
            if i < segs.len() {
                (Point { x: segs[i].x0, y: segs[i].y0 })
            } else {
                (Point { x: segs[segs.len() - 1].x1, y: segs[segs.len() - 1].y1 })
            },
    )
}

/// The closure test: with integer coordinates the squared-distance
/// tolerance of the closure criterion degenerates to exact equality of the
/// first and last point.
pub open spec fn strip_closed(segs: Seq<LineSegment>) -> bool {
    strip_points(segs).first() == strip_points(segs).last()
}

/// The strip builder accepted the scene and built exactly one strip per
/// segment list, with ids assigned sequentially from 1 in input order.
pub open spec fn built_strips(lists: Seq<Seq<LineSegment>>, strips: Seq<LineStrip>) -> bool {
    &&& strips.len() == lists.len()
    &&& forall|i: int|
        0 <= i < lists.len() ==> {
            &&& (#[trigger] strips[i]).points@ == strip_points(lists[i])
            &&& strips[i].is_closed == strip_closed(lists[i])
            &&& strips[i].id == i + 1
        }
}

/// Some inner segment list is empty.
pub open spec fn has_empty_list(lists: Seq<Seq<LineSegment>>) -> bool {
    exists|i: int| 0 <= i < lists.len() && (#[trigger] lists[i]).len() == 0
}

/// Some segment of some list carries a coordinate out of range.
pub open spec fn has_oversized_coordinate(lists: Seq<Seq<LineSegment>>) -> bool {
    exists|i: int, j: int|
        0 <= i < lists.len() && 0 <= j < lists[i].len() && !segment_in_bounds(
            #[trigger] lists[i][j],
        )
}

/// The four sides of an axis-aligned rectangle with corner `(x, y)`,
/// width `w` and height `h`, as a contiguous closed segment list: top,
/// right, bottom, left.
pub fn rect_to_lines(x: i64, y: i64, w: i64, h: i64) -> (lines: Vec<LineSegment>)
    requires
        -COORD_LIMIT <= x <= COORD_LIMIT,
        -COORD_LIMIT <= y <= COORD_LIMIT,
        -COORD_LIMIT <= x + w <= COORD_LIMIT,
        -COORD_LIMIT <= y + h <= COORD_LIMIT,
    ensures
        lines@.len() == 4,
        lines@[0] == (LineSegment { x0: x, y0: y, x1: (x + w) as i64, y1: y }),
        lines@[1] == (LineSegment {
            x0: (x + w) as i64,
            y0: y,
            x1: (x + w) as i64,
            y1: (y + h) as i64,
        }),
        lines@[2] == (LineSegment {
            x0: (x + w) as i64,
            y0: (y + h) as i64,
            x1: x,
            y1: (y + h) as i64,
        }),
        lines@[3] == (LineSegment { x0: x, y0: (y + h) as i64, x1: x, y1: y }),
        forall|i: int| 0 <= i < 4 ==> segment_in_bounds(#[trigger] lines@[i]),
{
    let mut lines: Vec<LineSegment> = Vec::new();
    lines.push(LineSegment { x0: x, y0: y, x1: x + w, y1: y });
    lines.push(LineSegment { x0: x + w, y0: y, x1: x + w, y1: y + h });
    lines.push(LineSegment { x0: x + w, y0: y + h, x1: x, y1: y + h });
    lines.push(LineSegment { x0: x, y0: y + h, x1: x, y1: y });
    lines
}

/// The outline of a polygon given by its corner points: one segment
/// between each pair of consecutive points, and a final edge joining the
/// first point to the last.
pub fn polygon_to_lines(points: &Vec<Point>) -> (lines: Vec<LineSegment>)
    requires
        points@.len() >= 1,
    ensures
        lines@.len() == points@.len(),
        forall|i: int|
            0 <= i < points@.len() - 1 ==> #[trigger] lines@[i] == (LineSegment {
                x0: points@[i].x,
                y0: points@[i].y,
                x1: points@[i + 1].x,
                y1: points@[i + 1].y,
            }),
        lines@.last() == (LineSegment {
            x0: points@.first().x,
            y0: points@.first().y,
            x1: points@.last().x,
            y1: points@.last().y,
        }),
{
    let first_point = points[0];
    let mut lines: Vec<LineSegment> = Vec::new();
    let n = points.len();
    let mut i: usize = 1;
    while i < n
        invariant
            n == points@.len(),
            n >= 1,
            1 <= i <= n,
            lines@.len() == i - 1,
            forall|j: int|
                0 <= j < i - 1 ==> #[trigger] lines@[j] == (LineSegment {
                    x0: points@[j].x,
                    y0: points@[j].y,
                    x1: points@[j + 1].x,
                    y1: points@[j + 1].y,
                }),
        decreases n - i,
    {
        let a = points[i - 1];
        let b = points[i];
        lines.push(LineSegment { x0: a.x, y0: a.y, x1: b.x, y1: b.y });
        i = i + 1;
    }
    let last_point = points[n - 1];
    lines.push(
        LineSegment { x0: first_point.x, y0: first_point.y, x1: last_point.x, y1: last_point.y },
    );
    lines
}

/// Converts a collection of raw segment lists into connected line strips.
///
/// Each list is assumed already contiguous (segment `i`'s endpoint equals
/// segment `i + 1`'s start point); the builder appends the start point of
/// every segment plus the end point of the last one, so a list of `n`
/// segments yields a strip of `n + 1` points. A strip is closed exactly
/// when its first and last points coincide.
///
/// Structurally invalid input is rejected: an empty scene, an empty
/// segment list, or a coordinate outside [`COORD_LIMIT`] (the range the
/// exact arithmetic of the ray caster is proved for).
pub fn line_segments_to_line_strips(line_segment_lists: &Vec<Vec<LineSegment>>) -> (result: Result<
    Vec<LineStrip>,
    StripError,
>)
    requires
        line_segment_lists@.len() < 0x1_0000_0000,
    ensures
        result matches Err(StripError::EmptyScene) <==> line_segment_lists@.len() == 0,
        result matches Err(StripError::InvalidStrip) <==> (line_segment_lists@.len() > 0
            && has_empty_list(line_segment_lists@.map_values(|v: Vec<LineSegment>| v@))),
        result matches Err(StripError::CoordinateOutOfRange) <==> (line_segment_lists@.len() > 0
            && !has_empty_list(line_segment_lists@.map_values(|v: Vec<LineSegment>| v@))
            && has_oversized_coordinate(line_segment_lists@.map_values(|v: Vec<LineSegment>| v@))),
        result matches Ok(strips) ==> {
            &&& built_strips(line_segment_lists@.map_values(|v: Vec<LineSegment>| v@), strips@)
            &&& strips_wf(strips@)
        },
{
    let ghost lists = line_segment_lists@.map_values(|v: Vec<LineSegment>| v@);
    if line_segment_lists.len() == 0 {
        return Err(StripError::EmptyScene);
    }
    let n = line_segment_lists.len();
    let mut i: usize = 0;
    while i < n
        invariant
            n == line_segment_lists@.len(),
            lists == line_segment_lists@.map_values(|v: Vec<LineSegment>| v@),
            0 <= i <= n,
            forall|k: int| 0 <= k < i ==> (#[trigger] lists[k]).len() > 0,
        decreases n - i,
    {
        if line_segment_lists[i].len() == 0 {
            assert(lists[i as int].len() == 0);
            return Err(StripError::InvalidStrip);
        }
        i = i + 1;
    }
    assert(!has_empty_list(lists));
    let mut i: usize = 0;
    while i < n
        invariant
            n == line_segment_lists@.len(),
            lists == line_segment_lists@.map_values(|v: Vec<LineSegment>| v@),
            0 <= i <= n,
            forall|k: int| 0 <= k < n ==> (#[trigger] lists[k]).len() > 0,
            forall|k: int, j: int|
                0 <= k < i && 0 <= j < lists[k].len() ==> segment_in_bounds(#[trigger] lists[k][j]),
        decreases n - i,
    {
        let list = &line_segment_lists[i];
        let m = list.len();
        let mut j: usize = 0;
        while j < m
            invariant
                n == line_segment_lists@.len(),
                lists == line_segment_lists@.map_values(|v: Vec<LineSegment>| v@),
                0 <= i < n,
                list@ == lists[i as int],
                m == list@.len(),
                0 <= j <= m,
                forall|k: int| 0 <= k < n ==> (#[trigger] lists[k]).len() > 0,
                forall|jj: int| 0 <= jj < j ==> segment_in_bounds(#[trigger] lists[i as int][jj]),
            decreases m - j,
        {
            let s = list[j];
            if s.x0 > COORD_LIMIT || s.x0 < -COORD_LIMIT || s.y0 > COORD_LIMIT || s.y0
                < -COORD_LIMIT || s.x1 > COORD_LIMIT || s.x1 < -COORD_LIMIT || s.y1 > COORD_LIMIT
                || s.y1 < -COORD_LIMIT {
                assert(!segment_in_bounds(lists[i as int][j as int]));
                return Err(StripError::CoordinateOutOfRange);
            }
            j = j + 1;
        }
        i = i + 1;
    }
    assert(!has_oversized_coordinate(lists));
    let mut strips: Vec<LineStrip> = Vec::new();
    let mut i: usize = 0;
    while i < n
        invariant
            n == line_segment_lists@.len(),
            n < 0x1_0000_0000,
            lists == line_segment_lists@.map_values(|v: Vec<LineSegment>| v@),
            0 <= i <= n,
            strips@.len() == i,
            forall|k: int| 0 <= k < n ==> (#[trigger] lists[k]).len() > 0,
            forall|k: int, j: int|
                0 <= k < n && 0 <= j < lists[k].len() ==> segment_in_bounds(#[trigger] lists[k][j]),
            forall|k: int|
                0 <= k < i ==> {
                    &&& (#[trigger] strips@[k]).points@ == strip_points(lists[k])
                    &&& strips@[k].is_closed == strip_closed(lists[k])
                    &&& strips@[k].id == k + 1
                    &&& strip_wf(strips@[k])
                },
        decreases n - i,
    {
        let list = &line_segment_lists[i];
        assert(lists[i as int] == line_segment_lists@[i as int]@);
        assert(lists[i as int].len() > 0);
        let m = list.len();
        let mut points: Vec<Point> = Vec::new();
        let mut j: usize = 0;
        while j < m
            invariant
                lists == line_segment_lists@.map_values(|v: Vec<LineSegment>| v@),
                0 <= i < n,
                n == line_segment_lists@.len(),
                list@ == lists[i as int],
                m == list@.len(),
                m >= 1,
                0 <= j <= m,
                points@.len() == j,
                forall|jj: int| 0 <= jj < m ==> segment_in_bounds(#[trigger] lists[i as int][jj]),
                forall|jj: int|
                    0 <= jj < j ==> #[trigger] points@[jj] == strip_points(lists[i as int])[jj],
            decreases m - j,
        {
            let s = list[j];
            points.push(Point { x: s.x0, y: s.y0 });
            j = j + 1;
        }
        let last = list[m - 1];
        points.push(Point { x: last.x1, y: last.y1 });
        assert(points@ =~= strip_points(lists[i as int]));
        let first_point = points[0];
        let last_point = points[points.len() - 1];
        let is_closed = first_point.x == last_point.x && first_point.y == last_point.y;
        let id: u32 = (i + 1) as u32;
        let strip = LineStrip { points, is_closed, id };
        strips.push(strip);
        i = i + 1;
    }
    Ok(strips)
}

} // verus!
