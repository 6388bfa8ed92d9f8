//! The statistical validation battery: the joint-distribution cross-check of two
//! simulators, the rank bookkeeping of simulation-based calibration, and the draw of
//! structures from the default structural prior.

pub mod geweke;
pub mod prior;
pub mod ranks;
