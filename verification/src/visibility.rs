//! The visibility solver: one ray per strip vertex, a corner-peek
//! heuristic, and the unordered hit set describing the visibility
//! boundary.

use vstd::prelude::*;

use crate::geom::point_in_bounds;
use crate::geom::strip_wf;
use crate::geom::strips_wf;
use crate::geom::LineStrip;
use crate::geom::Point;
use crate::num::lemma_abs_mul;
use crate::num::rat_ge_one;
use crate::num::rat_point_eq;
use crate::num::rat_point_eq_exec;
use crate::ray::all_ray_hits;
use crate::ray::all_ray_hits_up_to;
use crate::ray::dist_sorted_hits;
use crate::ray::strip_ray_hits;
use crate::ray::strip_ray_hits_up_to;
use crate::ray::hit_wf;
use crate::ray::raw_hit_ok;
use crate::ray::Hit;
use crate::ray::RayTracer;

verus! {

/// Whether a second ray should be cast past vertex `vi` of the strip.
///
/// At strip boundary vertices — the first or last point of an open strip,
/// or the wraparound vertex of a closed one — no adjacent-edge test is
/// meaningful and the peek is always warranted. At an interior vertex the
/// peek is warranted when the source does not lie inside the cone of the
/// two adjacent edges: with `p`, `n`, `s` the vectors from the previous
/// neighbour, the next neighbour and the source towards the vertex, the
/// test is `(n·s)(p·s) < |p·n| |s|²`, the exact form of the unit-vector
/// comparison `dot_n * dot_p < |dot|`.
pub open spec fn peek_warranted(source: Point, strip: LineStrip, vi: int) -> bool {
    let pts = strip.points@;
    let n = pts.len() as int;
    if vi == 0 || vi == n - 1 {
        true
    } else {
        let v = pts[vi];
        let pp = pts[vi - 1];
        let pn = pts[vi + 1];
        let px = v.x - pp.x;
        let py = v.y - pp.y;
        let nx = v.x - pn.x;
        let ny = v.y - pn.y;
        let sx = v.x - source.x;
        let sy = v.y - source.y;
        let dot_pn = px * nx + py * ny;
        let dot_ps = px * sx + py * sy;
        let dot_ns = nx * sx + ny * sy;
        let a = if dot_pn < 0 {
            -dot_pn
        } else {
            dot_pn
        };
        dot_ns * dot_ps < a * (sx * sx + sy * sy)
    }
}

/// Computes [`peek_warranted`] exactly, inside `i128`.
fn peek_warranted_exec(source: &Point, strip: &LineStrip, vi: usize) -> (r: bool)
    requires
        point_in_bounds(*source),
        strip_wf(*strip),
        0 <= vi < strip.points@.len(),
    ensures
        r == peek_warranted(*source, *strip, vi as int),
{
    let n = strip.points.len();
    if vi == 0 || vi == n - 1 {
        true
    } else {
        let v = strip.points[vi];
        let pp = strip.points[vi - 1];
        let pn = strip.points[vi + 1];
        let px = (v.x as i128) - (pp.x as i128);
        let py = (v.y as i128) - (pp.y as i128);
        let nx = (v.x as i128) - (pn.x as i128);
        let ny = (v.y as i128) - (pn.y as i128);
        let sx = (v.x as i128) - (source.x as i128);
        let sy = (v.y as i128) - (source.y as i128);
        proof {
            lemma_abs_mul(px as int, nx as int, 200_000, 200_000);
            lemma_abs_mul(py as int, ny as int, 200_000, 200_000);
            lemma_abs_mul(px as int, sx as int, 200_000, 200_000);
            lemma_abs_mul(py as int, sy as int, 200_000, 200_000);
            lemma_abs_mul(nx as int, sx as int, 200_000, 200_000);
            lemma_abs_mul(ny as int, sy as int, 200_000, 200_000);
            lemma_abs_mul(sx as int, sx as int, 200_000, 200_000);
            lemma_abs_mul(sy as int, sy as int, 200_000, 200_000);
        }
        let dot_pn = px * nx + py * ny;
        let dot_ps = px * sx + py * sy;
        let dot_ns = nx * sx + ny * sy;
        let ss = sx * sx + sy * sy;
        let a = if dot_pn < 0 {
            -dot_pn
        } else {
            dot_pn
        };
        proof {
            lemma_abs_mul(dot_ns as int, dot_ps as int, 80_000_000_000, 80_000_000_000);
            lemma_abs_mul(a as int, ss as int, 80_000_000_000, 80_000_000_000);
        }
        dot_ns * dot_ps < a * ss
    }
}

/// The secondary hit the corner peek records, scanning the sorted ray
/// hits from position `k`: hits coinciding with the nearest one and
/// belonging to the same strip are skipped; a coinciding hit of another
/// strip (a coincident corner of an adjacent obstacle) stops the scan
/// with nothing; the first hit at a genuinely different point is
/// recorded, flagged as not-first.
pub open spec fn peek_scan(sorted: Seq<Hit>, k: int) -> Seq<Hit>
    decreases sorted.len() - k,
{
    if k < 1 || k >= sorted.len() {
        Seq::empty()
    } else {
        let h = sorted[k];
        if rat_point_eq(h.point, sorted[0].point) {
            if h.strip_id != sorted[0].strip_id {
                Seq::empty()
            } else {
                peek_scan(sorted, k + 1)
            }
        } else {
            seq![(Hit { is_first_hit: false, ..h })]
        }
    }
}

/// What one vertex of a strip contributes to the visibility boundary:
/// nothing when its ray hits nothing (a zero-length ray); otherwise the
/// nearest hit, preceded by the corner-peek hit when the nearest hit
/// lands at the vertex itself (relative distance at least 1), more than
/// one intersection exists, and the peek is warranted.
pub open spec fn vertex_hits(
    source: Point,
    strips: Seq<LineStrip>,
    strip: LineStrip,
    vi: int,
) -> Seq<Hit> {
    let sorted = dist_sorted_hits(source, strip.points@[vi], strips);
    if sorted.len() == 0 {
        Seq::empty()
    } else {
        let first = sorted[0];
        if rat_ge_one(first.relative_distance) && sorted.len() > 1 && peek_warranted(
            source,
            strip,
            vi,
        ) {
            peek_scan(sorted, 1) + seq![first]
        } else {
            seq![first]
        }
    }
}

/// The number of vertices of the strip the solver processes: all of
/// them, except that a closed strip's final point (the duplicate of its
/// first) is skipped.
pub open spec fn strip_vertex_count(strip: LineStrip) -> int {
    if strip.is_closed {
        strip.points@.len() - 1
    } else {
        strip.points@.len() as int
    }
}

/// The hits contributed by the first `n` processed vertices of the strip.
pub open spec fn strip_trace_up_to(
    source: Point,
    strips: Seq<LineStrip>,
    strip: LineStrip,
    n: int,
) -> Seq<Hit>
    decreases n,
{
    if n <= 0 {
        Seq::empty()
    } else {
        strip_trace_up_to(source, strips, strip, n - 1) + vertex_hits(source, strips, strip, n - 1)
    }
}

/// The hits contributed by the first `n` strips.
pub open spec fn trace_up_to(source: Point, strips: Seq<LineStrip>, n: int) -> Seq<Hit>
    decreases n,
{
    if n <= 0 {
        Seq::empty()
    } else {
        trace_up_to(source, strips, n - 1) + strip_trace_up_to(
            source,
            strips,
            strips[n - 1],
            strip_vertex_count(strips[n - 1]),
        )
    }
}

/// The visibility solver's output: the concatenation, across all strips
/// and processed vertices in traversal order, of each vertex's one or
/// two hit records.
pub open spec fn trace_spec(source: Point, strips: Seq<LineStrip>) -> Seq<Hit> {
    trace_up_to(source, strips, strips.len() as int)
}

/// The number of hits in the list flagged as first (nearest) hits.
pub open spec fn first_hit_count(s: Seq<Hit>) -> int
    decreases s.len(),
{
    if s.len() == 0 {
        0
    } else {
        first_hit_count(s.drop_last()) + if s.last().is_first_hit {
            1int
        } else {
            0int
        }
    }
}

proof fn lemma_first_hit_count_concat(a: Seq<Hit>, b: Seq<Hit>)
    ensures
        first_hit_count(a + b) == first_hit_count(a) + first_hit_count(b),
    decreases b.len(),
{
    if b.len() == 0 {
        assert(a + b =~= a);
    } else {
        assert((a + b).drop_last() =~= a + b.drop_last());
        assert((a + b).last() == b.last());
        lemma_first_hit_count_concat(a, b.drop_last());
    }
}

proof fn lemma_strip_ray_hits_first(source: Point, target: Point, strip: LineStrip, n: int)
    ensures
        forall|i: int|
            0 <= i < strip_ray_hits_up_to(source, target, strip, n).len() ==> (
            #[trigger] strip_ray_hits_up_to(source, target, strip, n)[i]).is_first_hit,
    decreases n,
{
    if n > 0 {
        lemma_strip_ray_hits_first(source, target, strip, n - 1);
        let pre = strip_ray_hits_up_to(source, target, strip, n - 1);
        let whole = strip_ray_hits_up_to(source, target, strip, n);
        assert forall|i: int| 0 <= i < whole.len() implies whole[i].is_first_hit by {
            if i < pre.len() {
                assert(whole[i] == pre[i]);
            }
        }
    }
}

proof fn lemma_all_ray_hits_first(source: Point, target: Point, strips: Seq<LineStrip>, n: int)
    ensures
        forall|i: int|
            0 <= i < all_ray_hits_up_to(source, target, strips, n).len() ==> (
            #[trigger] all_ray_hits_up_to(source, target, strips, n)[i]).is_first_hit,
    decreases n,
{
    if n > 0 {
        lemma_all_ray_hits_first(source, target, strips, n - 1);
        lemma_strip_ray_hits_first(source, target, strips[n - 1], strips[n - 1].points@.len() - 1);
        let pre = all_ray_hits_up_to(source, target, strips, n - 1);
        let tail = strip_ray_hits(source, target, strips[n - 1]);
        let whole = all_ray_hits_up_to(source, target, strips, n);
        assert forall|i: int| 0 <= i < whole.len() implies whole[i].is_first_hit by {
            if i < pre.len() {
                assert(whole[i] == pre[i]);
            } else {
                assert(whole[i] == tail[i - pre.len()]);
            }
        }
    }
}

proof fn lemma_peek_scan_not_first(sorted: Seq<Hit>, k: int)
    ensures
        first_hit_count(peek_scan(sorted, k)) == 0,
    decreases sorted.len() - k,
{
    if 1 <= k < sorted.len() {
        let h = sorted[k];
        if rat_point_eq(h.point, sorted[0].point) {
            if h.strip_id == sorted[0].strip_id {
                lemma_peek_scan_not_first(sorted, k + 1);
            }
        } else {
            let ph = Hit { is_first_hit: false, ..h };
            assert(peek_scan(sorted, k) =~= seq![ph]);
            assert(seq![ph].drop_last() =~= Seq::<Hit>::empty());
            assert(first_hit_count(Seq::<Hit>::empty()) == 0);
        }
    }
}

proof fn lemma_vertex_hits_first_count(
    source: Point,
    strips: Seq<LineStrip>,
    strip: LineStrip,
    vi: int,
)
    ensures
        first_hit_count(vertex_hits(source, strips, strip, vi)) == if dist_sorted_hits(
            source,
            strip.points@[vi],
            strips,
        ).len() > 0 {
            1int
        } else {
            0int
        },
{
    let target = strip.points@[vi];
    let sorted = dist_sorted_hits(source, target, strips);
    if sorted.len() > 0 {
        let first = sorted[0];
        assert(first.is_first_hit) by {
            lemma_all_ray_hits_first(source, target, strips, strips.len() as int);
            let p = |h: Hit| h.is_first_hit;
            crate::sorting::lemma_insertion_sort_all(
                crate::ray::dist_leq(),
                p,
                all_ray_hits(source, target, strips),
            );
            assert(p(sorted[0]));
        }
        assert(first_hit_count(seq![first]) == 1) by {
            assert(seq![first].len() == 1);
            assert(seq![first].last() == first);
            assert(seq![first].drop_last() =~= Seq::<Hit>::empty());
            assert(first_hit_count(Seq::<Hit>::empty()) == 0);
        }
        if rat_ge_one(first.relative_distance) && sorted.len() > 1 && peek_warranted(
            source,
            strip,
            vi,
        ) {
            lemma_peek_scan_not_first(sorted, 1);
            lemma_first_hit_count_concat(peek_scan(sorted, 1), seq![first]);
        }
    }
}

/// The number of processed vertices of the strip, among its first `n`,
/// whose ray meets anything at all.
pub open spec fn lit_vertices_in_strip(
    source: Point,
    strips: Seq<LineStrip>,
    strip: LineStrip,
    n: int,
) -> int
    decreases n,
{
    if n <= 0 {
        0
    } else {
        lit_vertices_in_strip(source, strips, strip, n - 1) + if dist_sorted_hits(
            source,
            strip.points@[n - 1],
            strips,
        ).len() > 0 {
            1int
        } else {
            0int
        }
    }
}

/// The number of processed vertices of the first `n` strips whose ray
/// meets anything at all.
pub open spec fn lit_vertices_up_to(source: Point, strips: Seq<LineStrip>, n: int) -> int
    decreases n,
{
    if n <= 0 {
        0
    } else {
        lit_vertices_up_to(source, strips, n - 1) + lit_vertices_in_strip(
            source,
            strips,
            strips[n - 1],
            strip_vertex_count(strips[n - 1]),
        )
    }
}

proof fn lemma_strip_trace_first_count(
    source: Point,
    strips: Seq<LineStrip>,
    strip: LineStrip,
    n: int,
)
    ensures
        first_hit_count(strip_trace_up_to(source, strips, strip, n)) == lit_vertices_in_strip(
            source,
            strips,
            strip,
            n,
        ),
    decreases n,
{
    if n > 0 {
        lemma_strip_trace_first_count(source, strips, strip, n - 1);
        lemma_vertex_hits_first_count(source, strips, strip, n - 1);
        lemma_first_hit_count_concat(
            strip_trace_up_to(source, strips, strip, n - 1),
            vertex_hits(source, strips, strip, n - 1),
        );
    }
}

/// Law: the visibility solver records exactly one first (nearest) hit
/// per processed vertex whose ray meets anything; the corner peek only
/// ever adds secondary hits. In particular, a scene in which every
/// obstructed vertex keeps its ray non-empty yields one primary hit per
/// vertex, however many peeks trigger.
pub proof fn lemma_trace_one_first_hit_per_lit_vertex(source: Point, strips: Seq<LineStrip>)
    ensures
        first_hit_count(trace_spec(source, strips)) == lit_vertices_up_to(
            source,
            strips,
            strips.len() as int,
        ),
{
    lemma_trace_first_count(source, strips, strips.len() as int);
}

proof fn lemma_trace_first_count(source: Point, strips: Seq<LineStrip>, n: int)
    ensures
        first_hit_count(trace_up_to(source, strips, n)) == lit_vertices_up_to(source, strips, n),
    decreases n,
{
    if n > 0 {
        lemma_trace_first_count(source, strips, n - 1);
        lemma_strip_trace_first_count(
            source,
            strips,
            strips[n - 1],
            strip_vertex_count(strips[n - 1]),
        );
        lemma_first_hit_count_concat(
            trace_up_to(source, strips, n - 1),
            strip_trace_up_to(source, strips, strips[n - 1], strip_vertex_count(strips[n - 1])),
        );
    }
}

impl RayTracer {
    /// Produces the unordered hit set describing the visibility boundary
    /// seen from `source`.
    ///
    /// For every strip, every vertex is processed in order (a closed
    /// strip's duplicated seam vertex only once). The nearest hit of the
    /// vertex's ray is always recorded; when that hit lands at the vertex
    /// itself while further intersections lie behind it, and the corner
    /// peek is warranted, the first intersection genuinely past the
    /// corner is recorded before it, flagged as not-first. A vertex equal
    /// to the source casts a zero-length ray and records nothing.
    ///
    /// No deduplication runs afterward: duplicate-looking hits from
    /// adjacent strip corners are expected and preserved.
    pub fn trace(&self, source: &Point, line_strips: &Vec<LineStrip>) -> (r: Vec<Hit>)
        requires
            point_in_bounds(*source),
            strips_wf(line_strips@),
        ensures
            r@ == trace_spec(*source, line_strips@),
            forall|i: int| 0 <= i < r@.len() ==> hit_wf(#[trigger] r@[i]),
    {
        let mut out: Vec<Hit> = Vec::new();
        let n = line_strips.len();
        let mut si: usize = 0;
        while si < n
            invariant
                n == line_strips@.len(),
                point_in_bounds(*source),
                strips_wf(line_strips@),
                0 <= si <= n,
                out@ == trace_up_to(*source, line_strips@, si as int),
                forall|i: int| 0 <= i < out@.len() ==> hit_wf(#[trigger] out@[i]),
            decreases n - si,
        {
            let strip = &line_strips[si];
            let pts_len = strip.points.len();
            let count = if strip.is_closed {
                pts_len - 1
            } else {
                pts_len
            };
            let ghost base = out@;
            let mut vi: usize = 0;
            while vi < count
                invariant
                    n == line_strips@.len(),
                    point_in_bounds(*source),
                    strips_wf(line_strips@),
                    0 <= si < n,
                    strip == &line_strips@[si as int],
                    strip_wf(*strip),
                    pts_len == strip.points@.len(),
                    count == strip_vertex_count(*strip),
                    count <= pts_len,
                    0 <= vi <= count,
                    out@ == base + strip_trace_up_to(*source, line_strips@, *strip, vi as int),
                    forall|i: int| 0 <= i < out@.len() ==> hit_wf(#[trigger] out@[i]),
                decreases count - vi,
            {
                let target = strip.points[vi];
                let hits = self.trace_ray(source, &target, line_strips);
                let ghost sorted = hits@;
                if hits.len() > 0 {
                    let first = hits[0];
                    let peek = first.relative_distance.num >= first.relative_distance.den
                        && hits.len() > 1 && peek_warranted_exec(source, strip, vi);
                    if peek {
                        let mut k: usize = 1;
                        let mut found: Option<Hit> = None;
                        while k < hits.len()
                            invariant_except_break
                                sorted == hits@,
                                hits@.len() > 0,
                                first == hits@[0],
                                forall|i: int|
                                    0 <= i < hits@.len() ==> hit_wf(#[trigger] hits@[i]),
                                1 <= k <= hits@.len(),
                                found is None,
                                peek_scan(sorted, 1) == peek_scan(sorted, k as int),
                            ensures
                                sorted == hits@,
                                match found {
                                    Some(x) => peek_scan(sorted, 1) == seq![x] && hit_wf(x),
                                    None => peek_scan(sorted, 1) == Seq::<Hit>::empty(),
                                },
                            decreases hits@.len() - k,
                        {
                            let h2 = hits[k];
                            if rat_point_eq_exec(&h2.point, &first.point) {
                                if h2.strip_id != first.strip_id {
                                    proof {
                                        assert(peek_scan(sorted, k as int) =~= Seq::<
                                            Hit,
                                        >::empty());
                                    }
                                    break ;
                                }
                                k = k + 1;
                            } else {
                                let ph = Hit { is_first_hit: false, ..h2 };
                                found = Some(ph);
                                proof {
                                    assert(peek_scan(sorted, k as int) =~= seq![ph]);
                                }
                                break ;
                            }
                        }
                        if let Some(ph) = found {
                            out.push(ph);
                        }
                    }
                    out.push(first);
                }
                proof {
                    assert(out@ =~= base + strip_trace_up_to(
                        *source,
                        line_strips@,
                        *strip,
                        vi as int + 1,
                    ));
                }
                vi = vi + 1;
            }
            proof {
                assert(out@ =~= trace_up_to(*source, line_strips@, si as int + 1));
            }
            si = si + 1;
        }
        out
    }
}

} // verus!
