//! Verified core of Bayesian additive Voronoi tessellation regression.

pub mod binary64;
pub mod calibration;
pub mod config_spec;
pub mod conformance;
pub mod diagnostics;
pub mod engine;
pub mod extensions;
pub mod message;
pub mod named;
pub mod order;
pub mod randomness;
pub mod search;
pub mod value;
