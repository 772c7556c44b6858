//! Randomized weather forecasts for a motorsport race weekend.
//!
//! A fixed catalog of weather conditions, each with a default probability
//! weight, a rain intensity and a group of related conditions, feeds a
//! probability table that is sanitized and normalized once at construction.
//! A forecaster then draws weighted-random conditions for the Practice,
//! Qualifying and Race sessions, enforcing two domain rules: rain may appear
//! in an earlier session only when the Race produced rain, and a session
//! prefers distinct conditions when enough usable options remain.
//!
//! Probability weights are plain integers in units of `1 / WEIGHT_SCALE`,
//! so that every table operation and every probabilistic invariant is exact.

pub mod catalog;
pub mod config;
pub mod forecaster;
pub mod rng;
pub mod sampler;
pub mod sums;
pub mod table;
