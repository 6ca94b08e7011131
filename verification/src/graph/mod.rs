//! Graph configuration, scheduling bookkeeping and error policy.
pub mod error;
pub mod engine;
pub mod metrics;
pub mod pipe;
pub mod pool;
pub mod element;
pub mod packet;
pub mod spec;
pub mod inference;
pub mod cycle;
pub mod schema;
pub mod json;
pub mod validate;
pub mod builtin;
pub mod diff;
pub mod plan;
pub mod normalize;
pub mod params;
