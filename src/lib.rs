//! A pipeline of processing stations scheduled by first-come-first-served or
//! round-robin policies, with verified per-item timing records, a bounded
//! hand-off queue, stage-worker decisions and metric aggregation.
pub mod text;
pub mod scheduler;
pub mod station;
pub mod product;
pub mod queue;
pub mod metrics;
pub mod config;
pub mod simulation;
pub mod line;
