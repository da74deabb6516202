//! A two-dimensional visibility engine.
//!
//! Given a point light source and a scene of polygonal obstacles (open or
//! closed line strips), the engine computes the angularly ordered list of
//! boundary points visible from the source: the outline of the region the
//! light reaches once the obstacles cast their shadows.
//!
//! The pipeline runs in three stages, strictly one way:
//!
//! 1. the strip builder ([`line_segments_to_line_strips`]) turns raw segment
//!    batches into connected point chains and detects closure;
//! 2. the visibility solver ([`RayTracer::trace`]) casts a ray from the
//!    source to every strip vertex ([`RayTracer::trace_ray`]), keeps the
//!    nearest obstruction, and applies a corner-peek heuristic to reveal
//!    geometry hidden just past a grazed corner;
//! 3. the angular sorter ([`RayTracer::sort_hits`]) orders the hits by angle
//!    around the source and runs a local correction pass over coincident
//!    corners, yielding a list a renderer can walk as a polygon fan.
//!
//! All geometry is exact: coordinates are integers bounded by
//! [`COORD_LIMIT`], and derived quantities (intersection points, distances
//! along a ray) are rationals represented as integer fractions. Where a
//! floating-point formulation would compare against a small tolerance, this
//! engine compares exactly; every intermediate product is proved to fit in
//! an `i128`.

pub mod angular;
pub mod geom;
pub mod num;
pub mod ray;
pub mod sorting;
pub mod visibility;

pub use geom::line_segments_to_line_strips;
pub use geom::polygon_to_lines;
pub use geom::rect_to_lines;
pub use geom::LineSegment;
pub use geom::LineStrip;
pub use geom::Point;
pub use geom::StripError;
pub use num::Rat;
pub use num::RatPoint;
pub use num::COORD_LIMIT;
pub use ray::Hit;
pub use ray::RayTracer;
