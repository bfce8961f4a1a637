//! A constrained particle-swarm search over asset weight vectors.
//!
//! The engine looks for a weight vector over `n_var` assets that maximises a
//! risk-adjusted objective (a return dot product divided by a risk dot
//! product), subject to a budget constraint (the weights sum to one), per
//! weight bounds, and a minimum count of distinctly held assets.  All
//! quantities are held in a fixed-point integer representation so that the
//! budget invariant is exact: every position sums to `WEIGHT_SCALE`.

pub mod model;
pub mod norm;
pub mod fitness;
pub mod entropy;
pub mod particle;
pub mod pso;
