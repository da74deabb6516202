//! The ray caster: exact intersection of a source→target ray with every
//! segment of every strip, sorted by distance along the ray.

use vstd::prelude::*;

use crate::geom::point_in_bounds;
use crate::geom::strips_wf;
use crate::geom::LineStrip;
use crate::geom::Point;
use crate::num::lemma_abs_mul;
use crate::num::rat_le;
use crate::num::rat_le_exec;
use crate::num::rat_nonneg;
use crate::num::rat_point_wf;
use crate::num::rat_wf;
use crate::num::Rat;
use crate::num::RatPoint;
use crate::sorting::insert_sorted;
use crate::sorting::insertion_sort;
use crate::sorting::lemma_insert_sorted_at;
use crate::sorting::lemma_insertion_sort_all;
use crate::sorting::lemma_insertion_sort_multiset;
use crate::sorting::lemma_insertion_sort_sorted;
use crate::sorting::leq_total;
use crate::sorting::sorted_by;

verus! {

/// The visibility engine. It holds no state: every trace is computed from
/// scratch from the source point and the strip collection it is given.
pub struct RayTracer {}

/// A recorded intersection between a cast ray and a strip segment.
///
/// `relative_distance` is the fractional position along the casting ray
/// (0 the source, 1 the target vertex); `target_point` is a copy of the
/// vertex the ray was cast at; `is_first_hit` marks the nearest
/// obstruction of its ray, as opposed to a secondary hit revealed by
/// corner peeking.
#[derive(Clone, Copy, Debug, PartialEq, Eq, Structural)]
pub struct Hit {
    pub target_point: Point,
    pub point: RatPoint,
    pub strip_id: u32,
    pub segment_id: usize,
    pub relative_distance: Rat,
    pub is_first_hit: bool,
}

impl Hit {
    /// A field-by-field copy of the hit.
    pub fn copy(&self) -> (r: Hit)
        ensures
            r == *self,
    {
        let target_point = self.target_point;
        let point = self.point;
        let strip_id = self.strip_id;
        let segment_id = self.segment_id;
        let relative_distance = self.relative_distance;
        let is_first_hit = self.is_first_hit;
        Hit { target_point, point, strip_id, segment_id, relative_distance, is_first_hit }
    }
}

/// The bounds every hit the engine produces satisfies.
pub open spec fn hit_wf(h: Hit) -> bool {
    &&& rat_wf(h.relative_distance)
    &&& rat_nonneg(h.relative_distance)
    &&& rat_point_wf(h.point)
    &&& point_in_bounds(h.target_point)
}

/// What holds of every hit straight out of the ray caster: well-formed,
/// marked as a first hit, carrying the ray's target vertex.
pub open spec fn raw_hit_ok(target: Point, h: Hit) -> bool {
    &&& hit_wf(h)
    &&& h.is_first_hit
    &&& h.target_point == target
}

pub open spec fn mk_rat(n: int, d: int) -> Rat {
    Rat { num: n as i128, den: d as i128 }
}

pub open spec fn mk_rat_point(xn: int, yn: int, d: int) -> RatPoint {
    RatPoint { xn: xn as i128, yn: yn as i128, den: d as i128 }
}

/// Snapping for a ray collinear with an axis-aligned segment: of the two
/// endpoint coordinates `ca` (start) and `cb` (end), measured along the
/// axis of a ray that starts at `o` and moves with sign `d`, pick the one
/// nearest the origin among those not behind it; the start point wins
/// ties. `None` when the whole segment lies behind the source.
pub open spec fn axis_snap(o: int, d: int, ca: int, cb: int) -> Option<int> {
    let a_ahead = if d > 0 {
        ca >= o
    } else {
        ca <= o
    };
    let b_ahead = if d > 0 {
        cb >= o
    } else {
        cb <= o
    };
    if a_ahead && b_ahead {
        if d > 0 {
            if cb < ca {
                Some(cb)
            } else {
                Some(ca)
            }
        } else {
            if cb > ca {
                Some(cb)
            } else {
                Some(ca)
            }
        }
    } else if a_ahead {
        Some(ca)
    } else if b_ahead {
        Some(cb)
    } else {
        None
    }
}

/// The exact intersection of the ray from `source` towards `target` with
/// the segment from `sa` to `sb`: the intersection point and the relative
/// distance `t1` along the ray, or `None`.
///
/// An intersection is reported only when `t1 >= 0` (not behind the
/// source) and the position `t2` along the segment lies in `[0, 1]`; with
/// exact arithmetic the endpoint tolerance of the comparison degenerates
/// to the closed interval. The degenerate configurations are
/// special-cased rather than divided through:
///
/// - a zero-length ray intersects nothing;
/// - a ray with a zero direction component meets only segments collinear
///   with it (same fixed coordinate, segment direction reduced to the
///   same single axis), and snaps to the endpoint [`axis_snap`] picks;
/// - a ray parallel to the segment (vanishing denominator) meets nothing.
pub open spec fn ray_segment_hit(source: Point, target: Point, sa: Point, sb: Point) -> Option<
    (RatPoint, Rat),
> {
    let rpx = source.x as int;
    let rpy = source.y as int;
    let rdx = target.x - source.x;
    let rdy = target.y - source.y;
    let spx = sa.x as int;
    let spy = sa.y as int;
    let sdx = sb.x - sa.x;
    let sdy = sb.y - sa.y;
    if rdx == 0 && rdy == 0 {
        None
    } else if rdx == 0 {
        if spx == rpx && sdx == 0 {
            match axis_snap(rpy, rdy, spy, spy + sdy) {
                Some(cy) => Some(
                    (
                        mk_rat_point(rpx, cy, 1),
                        if rdy > 0 {
                            mk_rat(cy - rpy, rdy)
                        } else {
                            mk_rat(rpy - cy, -rdy)
                        },
                    ),
                ),
                None => None,
            }
        } else {
            None
        }
    } else if rdy == 0 {
        if spy == rpy && sdy == 0 {
            match axis_snap(rpx, rdx, spx, spx + sdx) {
                Some(cx) => Some(
                    (
                        mk_rat_point(cx, rpy, 1),
                        if rdx > 0 {
                            mk_rat(cx - rpx, rdx)
                        } else {
                            mk_rat(rpx - cx, -rdx)
                        },
                    ),
                ),
                None => None,
            }
        } else {
            None
        }
    } else {
        let den0 = sdx * rdy - sdy * rdx;
        if den0 == 0 {
            None
        } else {
            let dpos = if den0 > 0 {
                den0
            } else {
                -den0
            };
            let n2 = rdx * (spy - rpy) + rdy * (rpx - spx);
            let n2s = if den0 > 0 {
                n2
            } else {
                -n2
            };
            if n2s < 0 || n2s > dpos {
                None
            } else {
                let t1n0 = (spx - rpx) * dpos + sdx * n2s;
                let t1n = if rdx > 0 {
                    t1n0
                } else {
                    -t1n0
                };
                if t1n < 0 {
                    None
                } else {
                    Some(
                        (
                            mk_rat_point(spx * dpos + sdx * n2s, spy * dpos + sdy * n2s, dpos),
                            mk_rat(
                                t1n,
                                if rdx > 0 {
                                    dpos * rdx
                                } else {
                                    -(dpos * rdx)
                                },
                            ),
                        ),
                    )
                }
            }
        }
    }
}

/// Computes [`ray_segment_hit`] exactly, inside `i128`.
pub fn ray_segment_hit_exec(source: &Point, target: &Point, sa: Point, sb: Point) -> (r: Option<
    (RatPoint, Rat),
>)
    requires
        point_in_bounds(*source),
        point_in_bounds(*target),
        point_in_bounds(sa),
        point_in_bounds(sb),
    ensures
        r == ray_segment_hit(*source, *target, sa, sb),
        r matches Some(pd) ==> {
            &&& rat_point_wf(pd.0)
            &&& rat_wf(pd.1)
            &&& rat_nonneg(pd.1)
        },
{
    let rpx = source.x as i128;
    let rpy = source.y as i128;
    let rdx = (target.x as i128) - rpx;
    let rdy = (target.y as i128) - rpy;
    let spx = sa.x as i128;
    let spy = sa.y as i128;
    let sdx = (sb.x as i128) - spx;
    let sdy = (sb.y as i128) - spy;
    if rdx == 0 && rdy == 0 {
        None
    } else if rdx == 0 {
        if spx == rpx && sdx == 0 {
            let ca = spy;
            let cb = spy + sdy;
            let a_ahead = if rdy > 0 {
                ca >= rpy
            } else {
                ca <= rpy
            };
            let b_ahead = if rdy > 0 {
                cb >= rpy
            } else {
                cb <= rpy
            };
            let cy = if a_ahead && b_ahead {
                if rdy > 0 {
                    if cb < ca {
                        cb
                    } else {
                        ca
                    }
                } else {
                    if cb > ca {
                        cb
                    } else {
                        ca
                    }
                }
            } else if a_ahead {
                ca
            } else if b_ahead {
                cb
            } else {
                return None;
            };
            let dist = if rdy > 0 {
                Rat { num: cy - rpy, den: rdy }
            } else {
                Rat { num: rpy - cy, den: -rdy }
            };
            Some((RatPoint { xn: rpx, yn: cy, den: 1 }, dist))
        } else {
            None
        }
    } else if rdy == 0 {
        if spy == rpy && sdy == 0 {
            let ca = spx;
            let cb = spx + sdx;
            let a_ahead = if rdx > 0 {
                ca >= rpx
            } else {
                ca <= rpx
            };
            let b_ahead = if rdx > 0 {
                cb >= rpx
            } else {
                cb <= rpx
            };
            let cx = if a_ahead && b_ahead {
                if rdx > 0 {
                    if cb < ca {
                        cb
                    } else {
                        ca
                    }
                } else {
                    if cb > ca {
                        cb
                    } else {
                        ca
                    }
                }
            } else if a_ahead {
                ca
            } else if b_ahead {
                cb
            } else {
                return None;
            };
            let dist = if rdx > 0 {
                Rat { num: cx - rpx, den: rdx }
            } else {
                Rat { num: rpx - cx, den: -rdx }
            };
            Some((RatPoint { xn: cx, yn: rpy, den: 1 }, dist))
        } else {
            None
        }
    } else {
        proof {
            lemma_abs_mul(sdx as int, rdy as int, 200_000, 200_000);
            lemma_abs_mul(sdy as int, rdx as int, 200_000, 200_000);
        }
        let den0 = sdx * rdy - sdy * rdx;
        if den0 == 0 {
            None
        } else {
            let dpos = if den0 > 0 {
                den0
            } else {
                -den0
            };
            proof {
                lemma_abs_mul(rdx as int, (spy - rpy) as int, 200_000, 200_000);
                lemma_abs_mul(rdy as int, (rpx - spx) as int, 200_000, 200_000);
            }
            let n2 = rdx * (spy - rpy) + rdy * (rpx - spx);
            let n2s = if den0 > 0 {
                n2
            } else {
                -n2
            };
            if n2s < 0 || n2s > dpos {
                None
            } else {
                proof {
                    lemma_abs_mul((spx - rpx) as int, dpos as int, 200_000, 80_000_000_000);
                    lemma_abs_mul(sdx as int, n2s as int, 200_000, 80_000_000_000);
                    lemma_abs_mul(sdy as int, n2s as int, 200_000, 80_000_000_000);
                    lemma_abs_mul(spx as int, dpos as int, 100_000, 80_000_000_000);
                    lemma_abs_mul(spy as int, dpos as int, 100_000, 80_000_000_000);
                    lemma_abs_mul(dpos as int, rdx as int, 80_000_000_000, 200_000);
                }
                let t1n0 = (spx - rpx) * dpos + sdx * n2s;
                let t1n = if rdx > 0 {
                    t1n0
                } else {
                    -t1n0
                };
                if t1n < 0 {
                    None
                } else {
                    let xn = spx * dpos + sdx * n2s;
                    let yn = spy * dpos + sdy * n2s;
                    proof {
                        if rdx > 0 {
                            assert(dpos * rdx > 0) by (nonlinear_arith)
                                requires
                                    dpos > 0,
                                    rdx > 0,
                            ;
                        } else {
                            assert(dpos * rdx < 0) by (nonlinear_arith)
                                requires
                                    dpos > 0,
                                    rdx < 0,
                            ;
                        }
                    }
                    let t1d = if rdx > 0 {
                        dpos * rdx
                    } else {
                        -(dpos * rdx)
                    };
                    Some((RatPoint { xn, yn, den: dpos }, Rat { num: t1n, den: t1d }))
                }
            }
        }
    }
}

/// All hits of the ray against the first `n` segments of the strip, in
/// segment order.
pub open spec fn strip_ray_hits_up_to(
    source: Point,
    target: Point,
    strip: LineStrip,
    n: int,
) -> Seq<Hit>
    decreases n,
{
    if n <= 0 {
        Seq::empty()
    } else {
        strip_ray_hits_up_to(source, target, strip, n - 1) + match ray_segment_hit(
            source,
            target,
            strip.points@[n - 1],
            strip.points@[n],
        ) {
            Some(pd) => seq![
                (Hit {
                    target_point: target,
                    point: pd.0,
                    strip_id: strip.id,
                    segment_id: (n - 1) as usize,
                    relative_distance: pd.1,
                    is_first_hit: true,
                }),
            ],
            None => Seq::empty(),
        }
    }
}

/// All hits of the ray against the strip, in segment order.
pub open spec fn strip_ray_hits(source: Point, target: Point, strip: LineStrip) -> Seq<Hit> {
    strip_ray_hits_up_to(source, target, strip, strip.points@.len() - 1)
}

/// All hits of the ray against the first `n` strips, in traversal order.
pub open spec fn all_ray_hits_up_to(
    source: Point,
    target: Point,
    strips: Seq<LineStrip>,
    n: int,
) -> Seq<Hit>
    decreases n,
{
    if n <= 0 {
        Seq::empty()
    } else {
        all_ray_hits_up_to(source, target, strips, n - 1) + strip_ray_hits(
            source,
            target,
            strips[n - 1],
        )
    }
}

/// Every intersection of the ray with every segment of every strip, in
/// traversal order, before sorting.
pub open spec fn all_ray_hits(source: Point, target: Point, strips: Seq<LineStrip>) -> Seq<Hit> {
    all_ray_hits_up_to(source, target, strips, strips.len() as int)
}

/// Hits ordered by relative distance along the casting ray; ties keep
/// their traversal order.
pub open spec fn dist_leq() -> spec_fn(Hit, Hit) -> bool {
    |a: Hit, b: Hit| rat_le(a.relative_distance, b.relative_distance)
}

/// What the ray caster returns: the stable sort of [`all_ray_hits`] by
/// relative distance, nearest first.
pub open spec fn dist_sorted_hits(source: Point, target: Point, strips: Seq<LineStrip>) -> Seq<
    Hit,
> {
    insertion_sort(dist_leq(), all_ray_hits(source, target, strips))
}

/// The distance ordering relates every pair of hits.
pub proof fn lemma_dist_leq_total()
    ensures
        leq_total(dist_leq()),
{
    assert forall|a: Hit, b: Hit| #[trigger] dist_leq()(a, b) || #[trigger] dist_leq()(b, a) by {
        let x = a.relative_distance.num * b.relative_distance.den;
        let y = b.relative_distance.num * a.relative_distance.den;
        assert(x <= y || y <= x);
    }
}

/// A zero-length ray intersects no segment of the strip.
proof fn lemma_zero_ray_strip(source: Point, strip: LineStrip, n: int)
    ensures
        strip_ray_hits_up_to(source, source, strip, n).len() == 0,
    decreases n,
{
    if n > 0 {
        lemma_zero_ray_strip(source, strip, n - 1);
    }
}

/// A zero-length ray intersects nothing at all.
pub proof fn lemma_zero_ray_empty(source: Point, strips: Seq<LineStrip>, n: int)
    ensures
        all_ray_hits_up_to(source, source, strips, n).len() == 0,
    decreases n,
{
    if n > 0 {
        lemma_zero_ray_empty(source, strips, n - 1);
        lemma_zero_ray_strip(source, strips[n - 1], strips[n - 1].points@.len() - 1);
    }
}

/// Sorts hits ascending by relative distance with a stable insertion
/// sort: ties keep their insertion order.
fn sort_hits_by_distance(hits: Vec<Hit>) -> (r: Vec<Hit>)
    requires
        forall|i: int| 0 <= i < hits@.len() ==> hit_wf(#[trigger] hits@[i]),
    ensures
        r@ == insertion_sort(dist_leq(), hits@),
{
    let ghost leq = dist_leq();
    let mut out: Vec<Hit> = Vec::new();
    let n = hits.len();
    let mut i: usize = 0;
    while i < n
        invariant
            n == hits@.len(),
            0 <= i <= n,
            forall|k: int| 0 <= k < n ==> hit_wf(#[trigger] hits@[k]),
            leq == dist_leq(),
            out@ == insertion_sort(leq, hits@.take(i as int)),
            forall|k: int| 0 <= k < out@.len() ==> hit_wf(#[trigger] out@[k]),
        decreases n - i,
    {
        let h = hits[i];
        let ghost out0 = out@;
        let mut j: usize = 0;
        while j < out.len()
            invariant_except_break
                leq == dist_leq(),
                out@ == out0,
                forall|k: int| 0 <= k < out@.len() ==> hit_wf(#[trigger] out@[k]),
                hit_wf(h),
                0 <= j <= out@.len(),
                forall|k: int| 0 <= k < j ==> leq(#[trigger] out@[k], h),
            ensures
                out@ == out0,
                0 <= j <= out@.len(),
                forall|k: int| 0 <= k < j ==> leq(#[trigger] out@[k], h),
                j == out@.len() || !leq(out@[j as int], h),
            decreases out@.len() - j,
        {
            if !rat_le_exec(&out[j].relative_distance, &h.relative_distance) {
                break ;
            }
            j = j + 1;
        }
        proof {
            lemma_insert_sorted_at(leq, h, out@, j as int);
        }
        out.insert(j, h);
        proof {
            assert(hits@.take(i as int + 1).drop_last() =~= hits@.take(i as int));
            assert(hits@.take(i as int + 1).last() == h);
            assert(out@ =~= insert_sorted(leq, h, insertion_sort(leq, hits@.take(i as int))));
            let p = |x: Hit| hit_wf(x);
            assert(forall|k: int|
                0 <= k < hits@.take(i as int + 1).len() ==> p(#[trigger] hits@.take(i as int + 1)[k]));
            lemma_insertion_sort_all(leq, p, hits@.take(i as int + 1));
            assert(forall|k: int| 0 <= k < out@.len() ==> hit_wf(#[trigger] out@[k]));
        }
        i = i + 1;
    }
    proof {
        assert(hits@.take(n as int) =~= hits@);
    }
    out
}

impl RayTracer {
    /// Casts the ray from `source` towards `target` against every segment
    /// of every strip and returns all intersections, sorted ascending by
    /// relative distance along the ray (nearest first, ties in traversal
    /// order). A zero-length ray yields no intersections.
    pub fn trace_ray(&self, source: &Point, target: &Point, line_strips: &Vec<LineStrip>) -> (hits:
        Vec<Hit>)
        requires
            point_in_bounds(*source),
            point_in_bounds(*target),
            strips_wf(line_strips@),
        ensures
            hits@ == dist_sorted_hits(*source, *target, line_strips@),
            sorted_by(dist_leq(), hits@),
            hits@.to_multiset() == all_ray_hits(*source, *target, line_strips@).to_multiset(),
            forall|i: int| 0 <= i < hits@.len() ==> raw_hit_ok(*target, #[trigger] hits@[i]),
            *source == *target ==> hits@.len() == 0,
    {
        let mut raw: Vec<Hit> = Vec::new();
        let n = line_strips.len();
        let mut si: usize = 0;
        while si < n
            invariant
                n == line_strips@.len(),
                point_in_bounds(*source),
                point_in_bounds(*target),
                strips_wf(line_strips@),
                0 <= si <= n,
                raw@ == all_ray_hits_up_to(*source, *target, line_strips@, si as int),
                forall|k: int| 0 <= k < raw@.len() ==> raw_hit_ok(*target, #[trigger] raw@[k]),
            decreases n - si,
        {
            let strip = &line_strips[si];
            let pts_len = strip.points.len();
            let ghost base = raw@;
            let mut k: usize = 0;
            while k + 1 < pts_len
                invariant
                    n == line_strips@.len(),
                    point_in_bounds(*source),
                    point_in_bounds(*target),
                    strips_wf(line_strips@),
                    0 <= si < n,
                    strip == &line_strips@[si as int],
                    pts_len == strip.points@.len(),
                    0 <= k <= pts_len,
                    k + 1 <= pts_len,
                    raw@ == base + strip_ray_hits_up_to(*source, *target, *strip, k as int),
                    forall|kk: int| 0 <= kk < raw@.len() ==> raw_hit_ok(*target, #[trigger] raw@[kk]),
                decreases pts_len - k,
            {
                let sa = strip.points[k];
                let sb = strip.points[k + 1];
                match ray_segment_hit_exec(source, target, sa, sb) {
                    Some(pd) => {
                        let hit = Hit {
                            target_point: *target,
                            point: pd.0,
                            strip_id: strip.id,
                            segment_id: k,
                            relative_distance: pd.1,
                            is_first_hit: true,
                        };
                        raw.push(hit);
                    },
                    None => {},
                }
                proof {
                    assert(raw@ =~= base + strip_ray_hits_up_to(
                        *source,
                        *target,
                        *strip,
                        k as int + 1,
                    ));
                }
                k = k + 1;
            }
            proof {
                assert(strip_ray_hits_up_to(*source, *target, *strip, pts_len - 1)
                    == strip_ray_hits(*source, *target, *strip));
                assert(raw@ =~= all_ray_hits_up_to(*source, *target, line_strips@, si as int + 1));
            }
            si = si + 1;
        }
        proof {
            assert(raw@ == all_ray_hits(*source, *target, line_strips@));
            lemma_dist_leq_total();
            lemma_insertion_sort_sorted(dist_leq(), raw@);
            lemma_insertion_sort_multiset(dist_leq(), raw@);
            let p = |x: Hit| raw_hit_ok(*target, x);
            lemma_insertion_sort_all(dist_leq(), p, raw@);
            if *source == *target {
                lemma_zero_ray_empty(*source, line_strips@, line_strips@.len() as int);
                vstd::seq_lib::lemma_multiset_commutative(raw@, raw@);
            }
        }
        let sorted = sort_hits_by_distance(raw);
        sorted
    }
}

} // verus!
