//! Exact evaluation of Bernstein polynomials, Bézier curves and surfaces,
//! and rational Bézier curves built on homogeneous coordinates.
//!
//! Control points have integer coordinates and a parameter `xi` in `[0, 1]`
//! is the fraction `xi / den` of two integers. Evaluators return the point
//! scaled by `den^degree`, which is again an integer point, so every result is
//! exact: the Bernstein weights sum to `den^degree`, and the direct
//! evaluation by the definition and De Casteljau's algorithm give the same
//! point (see `laws`). Rational curves project their homogeneous value back,
//! dividing by the last coordinate.
//!
//! - `factorial`, `poly`: factorials, binomial coefficients and the
//!   mathematics of scaled Bernstein sums.
//! - `matrix`, `point`, `size`, `range`: fixed-size integer matrices and
//!   points, with homogeneous and cartesian conversion.
//! - `bernstein`, `bezier`, `rational`, `surface`: the evaluable objects;
//!   `mapping` and `evaluator`: their common interface and batch evaluation.
//! - `circle`, `factory`, `patch_format`: building circles from arcs and
//!   surfaces from indexed-vertex patch data.
//! - `laws`: properties relating the evaluators.

pub mod bernstein;
pub mod bezier;
pub mod circle;
pub mod evaluator;
pub mod factorial;
pub mod factory;
pub mod laws;
pub mod mapping;
pub mod matrix;
pub mod patch_format;
pub mod point;
pub mod poly;
pub mod range;
pub mod rational;
pub mod size;
pub mod surface;
