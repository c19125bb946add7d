//! A compressive-sensing style grid localization engine.
//!
//! Each cell of a fixed `width x height` grid has a precomputed scalar
//! response under a family of pseudo-random linear projections.  An agent
//! cycling through projection slots reports a quantized response per step;
//! an observer inverts the quantized response against a precomputed
//! fingerprint table to obtain a set of candidate cells, and aggregates
//! many such observations into a ranked location estimate.
//!
//! Response values are held in fixed-point form: a real value `v` is
//! represented by the integer `round(v * FP_ONE)`.

pub mod aggregate;
pub mod client;
pub mod common;
pub mod server;

pub use aggregate::{run_localization, tally_votes, top_locations};
pub use client::{Client, ClientRef};
pub use common::{grid_to_index, index_to_grid, isqrt, quantize, quantizer_scale, sigma_fp};
pub use server::{
    generate_fingerprint_database, generate_projection_matrix, predict_location_from_database,
    predict_location_from_database_quantized, slot_seed, FingerprintDatabase,
};
