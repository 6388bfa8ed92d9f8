//! The model's data, configuration, validation and posterior.

pub mod backfit;
pub mod builder;
pub mod column;
pub mod config;
pub mod data;
pub mod error;
pub mod fitted;
pub mod handle;
pub mod model;
pub mod posterior;
pub mod predict;
pub mod tessellation;
pub mod usage;
