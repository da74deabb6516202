//! The angular sorter: hits ordered by angle around the source, then a
//! local correction pass over coincident corners.
//!
//! The angle of a hit is the angle of the vector from the source to the
//! hit point, taken in the cyclic order that sweeps the lower half plane
//! first, then the positive x axis, the upper half plane, and last the
//! negative x axis. Instead of computing the angle, the engine compares
//! directions exactly: by half-plane class first, and within a half plane
//! by the sign of the cross product.

use vstd::pervasive::VecAdditionalExecFns;
use vstd::prelude::*;

use crate::geom::point_in_bounds;
use crate::geom::Point;
use crate::num::lemma_abs_mul;
use crate::num::rat_point_wf;
use crate::ray::hit_wf;
use crate::ray::Hit;
use crate::ray::RayTracer;
use crate::sorting::insert_sorted;
use crate::sorting::insertion_sort;
use crate::sorting::lemma_insert_sorted_at;
use crate::sorting::lemma_insertion_sort_all;
use crate::sorting::lemma_insertion_sort_identity;
use crate::sorting::lemma_insertion_sort_len;
use crate::sorting::lemma_insertion_sort_multiset;
use crate::sorting::lemma_insertion_sort_sorted;
use crate::sorting::leq_total;
use crate::sorting::leq_transitive;
use crate::sorting::sorted_by;

verus! {

/// The x component of the direction from the source to the hit point,
/// scaled by the point's positive denominator.
pub open spec fn dir_x(source: Point, h: Hit) -> int {
    h.point.xn - source.x * h.point.den
}

/// The y component of the direction from the source to the hit point,
/// scaled by the point's positive denominator.
pub open spec fn dir_y(source: Point, h: Hit) -> int {
    h.point.yn - source.y * h.point.den
}

/// The half-plane class of a direction, ascending in the angular order:
/// 0 the lower half plane, 1 the positive x axis (and the zero vector),
/// 2 the upper half plane, 3 the negative x axis.
pub open spec fn angle_class(x: int, y: int) -> int {
    if y < 0 {
        0
    } else if y == 0 && x >= 0 {
        1
    } else if y > 0 {
        2
    } else {
        3
    }
}

/// The cross product of two directions.
pub open spec fn cross(x1: int, y1: int, x2: int, y2: int) -> int {
    x1 * y2 - y1 * x2
}

/// The two directions have exactly the same angle: same class, and where
/// the class is an open half plane, a vanishing cross product.
pub open spec fn angle_eq(x1: int, y1: int, x2: int, y2: int) -> bool {
    &&& angle_class(x1, y1) == angle_class(x2, y2)
    &&& (angle_class(x1, y1) == 1 || angle_class(x1, y1) == 3 || cross(x1, y1, x2, y2) == 0)
}

/// The first direction's angle is strictly smaller: a smaller class, or
/// the same open half plane with a positive cross product.
pub open spec fn angle_lt(x1: int, y1: int, x2: int, y2: int) -> bool {
    ||| angle_class(x1, y1) < angle_class(x2, y2)
    ||| (angle_class(x1, y1) == angle_class(x2, y2) && (angle_class(x1, y1) == 0 || angle_class(
        x1,
        y1,
    ) == 2) && cross(x1, y1, x2, y2) > 0)
}

proof fn lemma_cross_antisym(x1: int, y1: int, x2: int, y2: int)
    by (nonlinear_arith)
    ensures
        x1 * y2 - y1 * x2 == -(x2 * y1 - y2 * x1),
{
}

proof fn lemma_cross_self(x: int, y: int)
    by (nonlinear_arith)
    ensures
        x * y - y * x == 0,
{
}

/// Within one open half plane the cross-product order is transitive, and
/// strictly so as soon as one of the two steps is strict.
proof fn lemma_cross_trans(ux: int, uy: int, vx: int, vy: int, wx: int, wy: int)
    by (nonlinear_arith)
    requires
        (uy > 0 && vy > 0 && wy > 0) || (uy < 0 && vy < 0 && wy < 0),
        ux * vy - uy * vx >= 0,
        vx * wy - vy * wx >= 0,
    ensures
        ux * wy - uy * wx >= 0,
        (ux * vy - uy * vx > 0 || vx * wy - vy * wx > 0) ==> ux * wy - uy * wx > 0,
{
}

/// Two collinear directions of the same open half plane compare equally
/// against any third direction.
proof fn lemma_cross_congr(ux: int, uy: int, vx: int, vy: int, wx: int, wy: int)
    by (nonlinear_arith)
    requires
        (uy > 0 && vy > 0) || (uy < 0 && vy < 0),
        ux * vy - uy * vx == 0,
    ensures
        (ux * wy - uy * wx > 0) == (vx * wy - vy * wx > 0),
        (ux * wy - uy * wx == 0) == (vx * wy - vy * wx == 0),
        (wx * uy - wy * ux > 0) == (wx * vy - wy * vx > 0),
        (wx * uy - wy * ux == 0) == (wx * vy - wy * vx == 0),
{
}

/// Exact angular equality is an equivalence relation.
proof fn lemma_angle_eq_equiv(x1: int, y1: int, x2: int, y2: int, x3: int, y3: int)
    ensures
        angle_eq(x1, y1, x1, y1),
        angle_eq(x1, y1, x2, y2) ==> angle_eq(x2, y2, x1, y1),
        angle_eq(x1, y1, x2, y2) && angle_eq(x2, y2, x3, y3) ==> angle_eq(x1, y1, x3, y3),
{
    lemma_cross_self(x1, y1);
    lemma_cross_antisym(x1, y1, x2, y2);
    if angle_eq(x1, y1, x2, y2) && angle_eq(x2, y2, x3, y3) {
        let c = angle_class(x1, y1);
        if c == 0 || c == 2 {
            lemma_cross_congr(x2, y2, x1, y1, x3, y3);
        }
    }
}

/// Exactly one of `lt`, `eq`, reverse `lt` holds of two directions.
proof fn lemma_angle_trichotomy(x1: int, y1: int, x2: int, y2: int)
    ensures
        angle_lt(x1, y1, x2, y2) || angle_eq(x1, y1, x2, y2) || angle_lt(x2, y2, x1, y1),
        !(angle_lt(x1, y1, x2, y2) && angle_eq(x1, y1, x2, y2)),
        !(angle_lt(x1, y1, x2, y2) && angle_lt(x2, y2, x1, y1)),
{
    lemma_cross_antisym(x1, y1, x2, y2);
}

/// Strict angular order is transitive, also through an equality on
/// either side.
proof fn lemma_angle_lt_trans(x1: int, y1: int, x2: int, y2: int, x3: int, y3: int)
    ensures
        angle_lt(x1, y1, x2, y2) && angle_lt(x2, y2, x3, y3) ==> angle_lt(x1, y1, x3, y3),
        angle_eq(x1, y1, x2, y2) && angle_lt(x2, y2, x3, y3) ==> angle_lt(x1, y1, x3, y3),
        angle_lt(x1, y1, x2, y2) && angle_eq(x2, y2, x3, y3) ==> angle_lt(x1, y1, x3, y3),
{
    if angle_lt(x1, y1, x2, y2) && angle_lt(x2, y2, x3, y3) {
        let c = angle_class(x1, y1);
        if c == angle_class(x2, y2) && c == angle_class(x3, y3) {
            lemma_cross_trans(x1, y1, x2, y2, x3, y3);
        }
    }
    if angle_eq(x1, y1, x2, y2) && angle_lt(x2, y2, x3, y3) {
        let c = angle_class(x1, y1);
        if (c == 0 || c == 2) && c == angle_class(x3, y3) {
            lemma_cross_congr(x1, y1, x2, y2, x3, y3);
        }
    }
    if angle_lt(x1, y1, x2, y2) && angle_eq(x2, y2, x3, y3) {
        let c = angle_class(x2, y2);
        if (c == 0 || c == 2) && c == angle_class(x1, y1) {
            lemma_cross_congr(x2, y2, x3, y3, x1, y1);
        }
    }
}

/// The two hits lie at exactly the same angle from the source.
pub open spec fn hit_angle_eq(source: Point, a: Hit, b: Hit) -> bool {
    angle_eq(dir_x(source, a), dir_y(source, a), dir_x(source, b), dir_y(source, b))
}

/// Hit `a`'s angle is at least hit `b`'s.
pub open spec fn hit_angle_ge(source: Point, a: Hit, b: Hit) -> bool {
    ||| hit_angle_eq(source, a, b)
    ||| angle_lt(dir_x(source, b), dir_y(source, b), dir_x(source, a), dir_y(source, a))
}

/// The order of the primary angular sort: descending by angle, and
/// between hits at exactly the same angle, descending by segment index.
pub open spec fn hit_before(source: Point, a: Hit, b: Hit) -> bool {
    if hit_angle_eq(source, a, b) {
        a.segment_id >= b.segment_id
    } else {
        angle_lt(dir_x(source, b), dir_y(source, b), dir_x(source, a), dir_y(source, a))
    }
}

/// [`hit_before`] as a comparator value.
pub open spec fn angle_leq(source: Point) -> spec_fn(Hit, Hit) -> bool {
    |a: Hit, b: Hit| hit_before(source, a, b)
}

/// The primary angular order relates every pair of hits.
pub proof fn lemma_hit_before_total(source: Point)
    ensures
        leq_total(angle_leq(source)),
{
    assert forall|a: Hit, b: Hit| #[trigger]
        angle_leq(source)(a, b) || #[trigger] angle_leq(source)(b, a) by {
        let ax = dir_x(source, a);
        let ay = dir_y(source, a);
        let bx = dir_x(source, b);
        let by = dir_y(source, b);
        lemma_angle_trichotomy(ax, ay, bx, by);
        lemma_angle_eq_equiv(ax, ay, bx, by, ax, ay);
    }
}

/// The primary angular order is transitive.
pub proof fn lemma_hit_before_trans(source: Point)
    ensures
        leq_transitive(angle_leq(source)),
{
    assert forall|a: Hit, b: Hit, c: Hit|
        #![trigger angle_leq(source)(a, b), angle_leq(source)(b, c)]
        angle_leq(source)(a, b) && angle_leq(source)(b, c) implies angle_leq(source)(a, c) by {
        let ax = dir_x(source, a);
        let ay = dir_y(source, a);
        let bx = dir_x(source, b);
        let by = dir_y(source, b);
        let cx = dir_x(source, c);
        let cy = dir_y(source, c);
        lemma_angle_eq_equiv(ax, ay, bx, by, cx, cy);
        lemma_angle_eq_equiv(bx, by, ax, ay, cx, cy);
        lemma_angle_eq_equiv(bx, by, cx, cy, ax, ay);
        lemma_angle_eq_equiv(cx, cy, ax, ay, bx, by);
        lemma_angle_eq_equiv(ax, ay, cx, cy, bx, by);
        lemma_angle_eq_equiv(cx, cy, bx, by, ax, ay);
        lemma_angle_lt_trans(cx, cy, bx, by, ax, ay);
        lemma_angle_lt_trans(bx, by, cx, cy, ax, ay);
        lemma_angle_lt_trans(cx, cy, ax, ay, bx, by);
        lemma_angle_trichotomy(ax, ay, cx, cy);
        lemma_angle_trichotomy(ax, ay, bx, by);
        lemma_angle_trichotomy(bx, by, cx, cy);
    }
}

/// Angle-equal hits compare equally against any third hit.
proof fn lemma_hit_angle_congr(source: Point, a: Hit, a2: Hit, b: Hit, b2: Hit)
    requires
        hit_angle_eq(source, a, a2),
        hit_angle_eq(source, b, b2),
        hit_angle_ge(source, a, b),
    ensures
        hit_angle_ge(source, a2, b2),
{
    let ax = dir_x(source, a);
    let ay = dir_y(source, a);
    let a2x = dir_x(source, a2);
    let a2y = dir_y(source, a2);
    let bx = dir_x(source, b);
    let by = dir_y(source, b);
    let b2x = dir_x(source, b2);
    let b2y = dir_y(source, b2);
    if hit_angle_eq(source, a, b) {
        lemma_angle_eq_equiv(a2x, a2y, ax, ay, bx, by);
        lemma_angle_eq_equiv(ax, ay, a2x, a2y, bx, by);
        lemma_angle_eq_equiv(a2x, a2y, bx, by, b2x, b2y);
    } else {
        lemma_angle_lt_trans(b2x, b2y, bx, by, ax, ay);
        lemma_angle_eq_equiv(bx, by, b2x, b2y, ax, ay);
        lemma_angle_lt_trans(b2x, b2y, ax, ay, a2x, a2y);
    }
}

/// The scaled direction components of a well-formed hit, exactly, inside
/// `i128`, with the bound every later product needs.
fn hit_dir(source: &Point, h: &Hit) -> (r: (i128, i128))
    requires
        point_in_bounds(*source),
        rat_point_wf(h.point),
    ensures
        r.0 as int == dir_x(*source, *h),
        r.1 as int == dir_y(*source, *h),
        -32_000_000_000_000_000 <= r.0 as int <= 32_000_000_000_000_000,
        -32_000_000_000_000_000 <= r.1 as int <= 32_000_000_000_000_000,
{
    proof {
        lemma_abs_mul(source.x as int, h.point.den as int, 100_000, 80_000_000_000);
        lemma_abs_mul(source.y as int, h.point.den as int, 100_000, 80_000_000_000);
    }
    let x = h.point.xn - (source.x as i128) * h.point.den;
    let y = h.point.yn - (source.y as i128) * h.point.den;
    (x, y)
}

/// The half-plane class of a direction, exactly.
fn class_of(x: i128, y: i128) -> (c: i32)
    ensures
        c as int == angle_class(x as int, y as int),
{
    if y < 0 {
        0
    } else if y == 0 && x >= 0 {
        1
    } else if y > 0 {
        2
    } else {
        3
    }
}

/// The cross product of two bounded directions, exactly, inside `i128`.
fn cross_exec(x1: i128, y1: i128, x2: i128, y2: i128) -> (r: i128)
    requires
        -32_000_000_000_000_000 <= x1 <= 32_000_000_000_000_000,
        -32_000_000_000_000_000 <= y1 <= 32_000_000_000_000_000,
        -32_000_000_000_000_000 <= x2 <= 32_000_000_000_000_000,
        -32_000_000_000_000_000 <= y2 <= 32_000_000_000_000_000,
    ensures
        r as int == cross(x1 as int, y1 as int, x2 as int, y2 as int),
{
    proof {
        lemma_abs_mul(x1 as int, y2 as int, 32_000_000_000_000_000, 32_000_000_000_000_000);
        lemma_abs_mul(y1 as int, x2 as int, 32_000_000_000_000_000, 32_000_000_000_000_000);
    }
    x1 * y2 - y1 * x2
}

/// Decides [`hit_angle_eq`] for two well-formed hits.
fn hit_angle_eq_exec(source: &Point, a: &Hit, b: &Hit) -> (r: bool)
    requires
        point_in_bounds(*source),
        hit_wf(*a),
        hit_wf(*b),
    ensures
        r == hit_angle_eq(*source, *a, *b),
{
    let (ax, ay) = hit_dir(source, a);
    let (bx, by) = hit_dir(source, b);
    let ca = class_of(ax, ay);
    let cb = class_of(bx, by);
    ca == cb && (ca == 1 || ca == 3 || cross_exec(ax, ay, bx, by) == 0)
}

/// Decides [`hit_before`] for two well-formed hits.
fn hit_before_exec(source: &Point, a: &Hit, b: &Hit) -> (r: bool)
    requires
        point_in_bounds(*source),
        hit_wf(*a),
        hit_wf(*b),
    ensures
        r == hit_before(*source, *a, *b),
{
    let (ax, ay) = hit_dir(source, a);
    let (bx, by) = hit_dir(source, b);
    let ca = class_of(ax, ay);
    let cb = class_of(bx, by);
    let eq = ca == cb && (ca == 1 || ca == 3 || cross_exec(ax, ay, bx, by) == 0);
    if eq {
        a.segment_id >= b.segment_id
    } else {
        cb < ca || (cb == ca && (cb == 0 || cb == 2) && cross_exec(bx, by, ax, ay) > 0)
    }
}

/// Sorts hits by the primary angular order with a stable insertion sort.
fn sort_hits_by_angle(source: &Point, hits: &Vec<Hit>) -> (r: Vec<Hit>)
    requires
        point_in_bounds(*source),
        forall|i: int| 0 <= i < hits@.len() ==> hit_wf(#[trigger] hits@[i]),
    ensures
        r@ == insertion_sort(angle_leq(*source), hits@),
        forall|i: int| 0 <= i < r@.len() ==> hit_wf(#[trigger] r@[i]),
{
    let ghost leq = angle_leq(*source);
    let mut out: Vec<Hit> = Vec::new();
    let n = hits.len();
    let mut i: usize = 0;
    while i < n
        invariant
            point_in_bounds(*source),
            n == hits@.len(),
            0 <= i <= n,
            forall|k: int| 0 <= k < n ==> hit_wf(#[trigger] hits@[k]),
            leq == angle_leq(*source),
            out@ == insertion_sort(leq, hits@.take(i as int)),
            forall|k: int| 0 <= k < out@.len() ==> hit_wf(#[trigger] out@[k]),
        decreases n - i,
    {
        let h = hits[i];
        let ghost out0 = out@;
        let mut j: usize = 0;
        while j < out.len()
            invariant_except_break
                point_in_bounds(*source),
                leq == angle_leq(*source),
                out@ == out0,
                forall|k: int| 0 <= k < out@.len() ==> hit_wf(#[trigger] out@[k]),
                hit_wf(h),
                0 <= j <= out@.len(),
                forall|k: int| 0 <= k < j ==> leq(#[trigger] out@[k], h),
            ensures
                out@ == out0,
                0 <= j <= out@.len(),
                forall|k: int| 0 <= k < j ==> leq(#[trigger] out@[k], h),
                j == out@.len() || !leq(out@[j as int], h),
            decreases out@.len() - j,
        {
            if !hit_before_exec(source, &out[j], &h) {
                break ;
            }
            j = j + 1;
        }
        proof {
            lemma_insert_sorted_at(leq, h, out@, j as int);
        }
        out.insert(j, h);
        proof {
            assert(hits@.take(i as int + 1).drop_last() =~= hits@.take(i as int));
            assert(hits@.take(i as int + 1).last() == h);
            assert(out@ =~= insert_sorted(leq, h, insertion_sort(leq, hits@.take(i as int))));
            let p = |x: Hit| hit_wf(x);
            assert(forall|k: int|
                0 <= k < hits@.take(i as int + 1).len() ==> p(
                    #[trigger] hits@.take(i as int + 1)[k],
                ));
            lemma_insertion_sort_all(leq, p, hits@.take(i as int + 1));
            assert(forall|k: int| 0 <= k < out@.len() ==> hit_wf(#[trigger] out@[k]));
        }
        i = i + 1;
    }
    proof {
        assert(hits@.take(n as int) =~= hits@);
    }
    out
}

/// The cyclic successor of an index of a list of length `len`.
pub open spec fn next_idx(len: int, i: int) -> int {
    if i + 1 >= len {
        i + 1 - len
    } else {
        i + 1
    }
}

/// Whether the correction pass swaps the two hits after position `i` of
/// the circularly-read list: they must lie at exactly the same angle, and
/// either belong to the same strip while hit `i` shares its segment index
/// with the far one of the pair and not the near one, or belong to
/// different strips while hit `i` belongs to the far one's strip.
pub open spec fn swap_cond(source: Point, s: Seq<Hit>, i: int) -> bool {
    let len = s.len() as int;
    let i1 = next_idx(len, i);
    let i2 = next_idx(len, i1);
    &&& hit_angle_eq(source, s[i1], s[i2])
    &&& if s[i1].strip_id == s[i2].strip_id {
        s[i].segment_id == s[i2].segment_id && s[i1].segment_id != s[i2].segment_id
    } else {
        s[i].strip_id == s[i2].strip_id
    }
}

/// One step of the correction pass: the swap at position `i`, when its
/// condition holds.
pub open spec fn corr_step(source: Point, s: Seq<Hit>, i: int) -> Seq<Hit> {
    if swap_cond(source, s, i) {
        let len = s.len() as int;
        let i1 = next_idx(len, i);
        let i2 = next_idx(len, i1);
        s.update(i1, s[i2]).update(i2, s[i1])
    } else {
        s
    }
}

/// The correction pass from position `i` on: a single forward pass, not a
/// fixed-point iteration.
pub open spec fn corr_from(source: Point, s: Seq<Hit>, i: int) -> Seq<Hit>
    decreases s.len() - i,
{
    if i < 0 || i >= s.len() {
        s
    } else {
        corr_from(source, corr_step(source, s, i), i + 1)
    }
}

/// What the angular sorter returns: the primary sort, then the
/// correction pass over the whole list.
pub open spec fn sort_hits_spec(source: Point, hits: Seq<Hit>) -> Seq<Hit> {
    corr_from(source, insertion_sort(angle_leq(source), hits), 0)
}

/// Consecutive hits have non-increasing angles.
pub open spec fn angle_sorted(source: Point, s: Seq<Hit>) -> bool {
    forall|i: int| 0 <= i < s.len() - 1 ==> hit_angle_ge(source, #[trigger] s[i], s[i + 1])
}

/// A list sorted by the primary angular order has non-increasing angles.
pub proof fn lemma_sorted_to_angle_sorted(source: Point, s: Seq<Hit>)
    requires
        sorted_by(angle_leq(source), s),
    ensures
        angle_sorted(source, s),
{
    assert forall|i: int| 0 <= i < s.len() - 1 implies hit_angle_ge(source, #[trigger] s[i], s[i + 1]) by {
        assert(angle_leq(source)(s[i], s[i + 1]));
    }
}

/// One correction step keeps the length, the multiset, well-formedness,
/// and leaves every position at an unchanged angle.
proof fn lemma_corr_step_props(source: Point, s: Seq<Hit>, i: int)
    requires
        0 <= i < s.len(),
    ensures
        corr_step(source, s, i).len() == s.len(),
        corr_step(source, s, i).to_multiset() == s.to_multiset(),
        forall|k: int|
            0 <= k < s.len() ==> hit_angle_eq(source, #[trigger] corr_step(source, s, i)[k], s[k]),
        (forall|k: int| 0 <= k < s.len() ==> hit_wf(#[trigger] s[k])) ==> (forall|k: int|
            0 <= k < s.len() ==> hit_wf(#[trigger] corr_step(source, s, i)[k])),
{
    broadcast use vstd::seq_lib::group_to_multiset_ensures;
    broadcast use vstd::multiset::group_multiset_axioms;

    let r = corr_step(source, s, i);
    assert forall|k: int| 0 <= k < s.len() implies hit_angle_eq(source, #[trigger] r[k], s[k]) by {
        let ax = dir_x(source, s[k]);
        let ay = dir_y(source, s[k]);
        lemma_angle_eq_equiv(ax, ay, ax, ay, ax, ay);
        if swap_cond(source, s, i) {
            let len = s.len() as int;
            let i1 = next_idx(len, i);
            let i2 = next_idx(len, i1);
            lemma_angle_eq_equiv(
                dir_x(source, s[i1]),
                dir_y(source, s[i1]),
                dir_x(source, s[i2]),
                dir_y(source, s[i2]),
                ax,
                ay,
            );
        }
    }
    if swap_cond(source, s, i) {
        let len = s.len() as int;
        let i1 = next_idx(len, i);
        let i2 = next_idx(len, i1);
        if i1 == i2 {
            assert(r =~= s);
        } else {
            let s1 = s.update(i1, s[i2]);
            vstd::seq_lib::to_multiset_update(s, i1, s[i2]);
            vstd::seq_lib::to_multiset_update(s1, i2, s[i1]);
            assert(s1[i2] == s[i2]);
            assert(s.contains(s[i1]));
            assert(s.to_multiset().count(s[i1]) > 0);
            assert(s1.contains(s[i2])) by {
                assert(s1[i2] == s[i2]);
            }
            assert(r.to_multiset() =~= s.to_multiset());
        }
    }
}

/// One correction step keeps the angles non-increasing: only hits at
/// exactly the same angle ever change places.
proof fn lemma_corr_step_angle_sorted(source: Point, s: Seq<Hit>, i: int)
    requires
        0 <= i < s.len(),
        angle_sorted(source, s),
    ensures
        angle_sorted(source, corr_step(source, s, i)),
{
    let r = corr_step(source, s, i);
    lemma_corr_step_props(source, s, i);
    assert forall|k: int| 0 <= k < r.len() - 1 implies hit_angle_ge(source, #[trigger] r[k], r[k + 1]) by {
        assert(hit_angle_ge(source, s[k], s[k + 1]));
        assert(hit_angle_eq(source, r[k], s[k]));
        assert(hit_angle_eq(source, r[k + 1], s[k + 1]));
        lemma_hit_angle_congr(source, s[k], r[k], s[k + 1], r[k + 1]);
    }
}

/// The correction pass keeps the length, the multiset, well-formedness
/// and the non-increasing angles of its input.
proof fn lemma_corr_from_props(source: Point, s: Seq<Hit>, i: int)
    requires
        0 <= i,
    ensures
        corr_from(source, s, i).len() == s.len(),
        corr_from(source, s, i).to_multiset() == s.to_multiset(),
        angle_sorted(source, s) ==> angle_sorted(source, corr_from(source, s, i)),
        (forall|k: int| 0 <= k < s.len() ==> hit_wf(#[trigger] s[k])) ==> (forall|k: int|
            0 <= k < corr_from(source, s, i).len() ==> hit_wf(
                #[trigger] corr_from(source, s, i)[k],
            )),
    decreases s.len() - i,
{
    if i < s.len() {
        lemma_corr_step_props(source, s, i);
        if angle_sorted(source, s) {
            lemma_corr_step_angle_sorted(source, s, i);
        }
        lemma_corr_from_props(source, corr_step(source, s, i), i + 1);
    }
}

/// A list on which no swap condition holds anywhere passes the
/// correction unchanged.
proof fn lemma_corr_from_clean(source: Point, s: Seq<Hit>, i: int)
    requires
        0 <= i,
        forall|j: int| 0 <= j < s.len() ==> !swap_cond(source, s, j),
    ensures
        corr_from(source, s, i) == s,
    decreases s.len() - i,
{
    if i < s.len() {
        assert(!swap_cond(source, s, i));
        assert(corr_step(source, s, i) == s);
        lemma_corr_from_clean(source, s, i + 1);
    }
}

/// Law: the angular sorter is idempotent on its own output where that
/// output needs no further correction. A list already sorted by the
/// primary order on which no swap condition holds anywhere is returned
/// unchanged: the primary sort finds it in order and the correction pass
/// finds no triple to swap.
pub proof fn lemma_sort_hits_idempotent(source: Point, s: Seq<Hit>)
    requires
        sorted_by(angle_leq(source), s),
        forall|i: int| 0 <= i < s.len() ==> !swap_cond(source, s, i),
    ensures
        sort_hits_spec(source, s) == s,
{
    lemma_hit_before_total(source);
    lemma_hit_before_trans(source);
    lemma_insertion_sort_identity(angle_leq(source), s);
    lemma_corr_from_clean(source, s, 0);
}

impl RayTracer {
    /// Reorders the hit set into the sequence a renderer can walk to draw
    /// the visibility polygon fan.
    ///
    /// First the primary sort: descending by exact angle around the
    /// source, ties broken by descending segment index, stable beyond
    /// that. Then the correction pass: one forward sweep of the list read
    /// circularly, swapping the two hits after position `i` when
    /// [`swap_cond`] finds a coincident-corner triple there. The result
    /// holds the same hits, with consecutive angles non-increasing: the
    /// pass only ever swaps hits at exactly the same angle. The pass is a
    /// heuristic local repair for corner hits the primary sort cannot
    /// order, not a formally characterized total order.
    pub fn sort_hits(&self, source: &Point, hit_points: &Vec<Hit>) -> (r: Vec<Hit>)
        requires
            point_in_bounds(*source),
            forall|i: int| 0 <= i < hit_points@.len() ==> hit_wf(#[trigger] hit_points@[i]),
        ensures
            r@ == sort_hits_spec(*source, hit_points@),
            r@.to_multiset() == hit_points@.to_multiset(),
            r@.len() == hit_points@.len(),
            angle_sorted(*source, r@),
    {
        let mut v = sort_hits_by_angle(source, hit_points);
        proof {
            lemma_hit_before_total(*source);
            lemma_insertion_sort_sorted(angle_leq(*source), hit_points@);
            lemma_insertion_sort_multiset(angle_leq(*source), hit_points@);
            lemma_sorted_to_angle_sorted(*source, v@);
        }
        let ghost sorted0 = v@;
        let len = v.len();
        let mut i: usize = 0;
        while i < len
            invariant
                point_in_bounds(*source),
                len == v@.len(),
                0 <= i <= len,
                forall|k: int| 0 <= k < v@.len() ==> hit_wf(#[trigger] v@[k]),
                corr_from(*source, sorted0, 0) == corr_from(*source, v@, i as int),
            decreases len - i,
        {
            let i1 = if i + 1 >= len {
                i + 1 - len
            } else {
                i + 1
            };
            let i2 = if i1 + 1 >= len {
                i1 + 1 - len
            } else {
                i1 + 1
            };
            let h0 = v[i];
            let h1 = v[i1];
            let h2 = v[i2];
            let cond = hit_angle_eq_exec(source, &h1, &h2) && (if h1.strip_id == h2.strip_id {
                h0.segment_id == h2.segment_id && h1.segment_id != h2.segment_id
            } else {
                h0.strip_id == h2.strip_id
            });
            let ghost before = v@;
            proof {
                assert(cond == swap_cond(*source, v@, i as int));
            }
            if cond {
                v.set(i1, h2);
                v.set(i2, h1);
            }
            proof {
                assert(v@ =~= corr_step(*source, before, i as int));
                lemma_corr_step_props(*source, before, i as int);
            }
            i = i + 1;
        }
        proof {
            assert(corr_from(*source, v@, len as int) == v@);
            assert(v@ == corr_from(*source, sorted0, 0));
            lemma_corr_from_props(*source, sorted0, 0);
            lemma_insertion_sort_len(angle_leq(*source), hit_points@);
        }
        v
    }
}

} // verus!
