//! The server as a whole: what it is made of, and what it counts.

pub mod config;
pub mod meter;
pub mod metrics;
pub mod relay;
