//! Exact scalar arithmetic for the engine.
//!
//! Coordinates are integers no larger in magnitude than [`COORD_LIMIT`].
//! Every derived quantity — the parameter of an intersection along a ray,
//! the coordinates of an intersection point — is a rational number kept as
//! an integer fraction with a positive denominator. Comparisons multiply
//! through by the (positive) denominators, so they are exact; the bounds
//! below guarantee that every such product fits in an `i128`.

use vstd::prelude::*;

verus! {

/// Largest coordinate magnitude the engine accepts.
///
/// The bound is what keeps every intermediate product of the intersection
/// arithmetic, and of the comparisons made on its results, inside `i128`.
pub const COORD_LIMIT: i64 = 100_000;

/// Bound on the denominator of an intersection point:
/// `8 * COORD_LIMIT^2`, the largest ray/segment cross product.
pub const POINT_DEN_MAX: i128 = 80_000_000_000;

/// Bound on the numerators of an intersection point: `24 * COORD_LIMIT^3`.
pub const POINT_NUM_MAX: i128 = 24_000_000_000_000_000;

/// Bound on the denominator of a relative distance: `16 * COORD_LIMIT^3`.
pub const DIST_DEN_MAX: i128 = 16_000_000_000_000_000;

/// Bound on the numerator of a relative distance: `32 * COORD_LIMIT^3`.
pub const DIST_NUM_MAX: i128 = 32_000_000_000_000_000;

/// An exact rational number `num / den`; the denominator is kept positive.
///
/// Used for the relative distance of a hit along its casting ray:
/// 0 is the source, 1 the target vertex, values above 1 lie beyond it.
#[derive(Clone, Copy, Debug, PartialEq, Eq, Structural)]
pub struct Rat {
    pub num: i128,
    pub den: i128,
}

/// A point with exact rational coordinates `(xn / den, yn / den)`;
/// the common denominator is kept positive.
#[derive(Clone, Copy, Debug, PartialEq, Eq, Structural)]
pub struct RatPoint {
    pub xn: i128,
    pub yn: i128,
    pub den: i128,
}

/// A rational distance as the engine produces it: positive denominator,
/// both parts within the bounds that keep comparisons inside `i128`.
pub open spec fn rat_wf(r: Rat) -> bool {
    &&& 0 < r.den <= DIST_DEN_MAX
    &&& -DIST_NUM_MAX <= r.num <= DIST_NUM_MAX
}

/// A rational point as the engine produces it: positive denominator,
/// all parts within the bounds that keep comparisons inside `i128`.
pub open spec fn rat_point_wf(p: RatPoint) -> bool {
    &&& 0 < p.den <= POINT_DEN_MAX
    &&& -POINT_NUM_MAX <= p.xn <= POINT_NUM_MAX
    &&& -POINT_NUM_MAX <= p.yn <= POINT_NUM_MAX
}

/// `a <= b` as rationals, by cross multiplication (denominators positive).
pub open spec fn rat_le(a: Rat, b: Rat) -> bool {
    a.num * b.den <= b.num * a.den
}

/// `r >= 1` as a rational (denominator positive).
pub open spec fn rat_ge_one(r: Rat) -> bool {
    r.num >= r.den
}

/// `r >= 0` as a rational (denominator positive).
pub open spec fn rat_nonneg(r: Rat) -> bool {
    r.num >= 0
}

/// The two points are the same point of the plane, by cross multiplication.
pub open spec fn rat_point_eq(p: RatPoint, q: RatPoint) -> bool {
    &&& p.xn * q.den == q.xn * p.den
    &&& p.yn * q.den == q.yn * p.den
}

/// A product of values bounded in magnitude is bounded by the product of
/// the bounds.
pub proof fn lemma_abs_mul(a: int, b: int, aa: int, bb: int)
    by (nonlinear_arith)
    requires
        -aa <= a <= aa,
        -bb <= b <= bb,
        0 <= aa,
        0 <= bb,
    ensures
        -(aa * bb) <= a * b <= aa * bb,
{
}

/// Decides `a <= b` for two well-formed rationals.
pub fn rat_le_exec(a: &Rat, b: &Rat) -> (r: bool)
    requires
        rat_wf(*a),
        rat_wf(*b),
    ensures
        r == rat_le(*a, *b),
{
    proof {
        lemma_abs_mul(a.num as int, b.den as int, DIST_NUM_MAX as int, DIST_DEN_MAX as int);
        lemma_abs_mul(b.num as int, a.den as int, DIST_NUM_MAX as int, DIST_DEN_MAX as int);
    }
    a.num * b.den <= b.num * a.den
}

/// Decides whether two well-formed rational points coincide.
pub fn rat_point_eq_exec(p: &RatPoint, q: &RatPoint) -> (r: bool)
    requires
        rat_point_wf(*p),
        rat_point_wf(*q),
    ensures
        r == rat_point_eq(*p, *q),
{
    proof {
        lemma_abs_mul(p.xn as int, q.den as int, POINT_NUM_MAX as int, POINT_DEN_MAX as int);
        lemma_abs_mul(q.xn as int, p.den as int, POINT_NUM_MAX as int, POINT_DEN_MAX as int);
        lemma_abs_mul(p.yn as int, q.den as int, POINT_NUM_MAX as int, POINT_DEN_MAX as int);
        lemma_abs_mul(q.yn as int, p.den as int, POINT_NUM_MAX as int, POINT_DEN_MAX as int);
    }
    p.xn * q.den == q.xn * p.den && p.yn * q.den == q.yn * p.den
}

} // verus!
