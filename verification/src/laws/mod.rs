//! What holds of the engine over whole ticks and over runs of many ticks.

pub mod chain;
pub mod cleanup;
pub mod delay;
pub mod engine;
pub mod model;
pub mod retry;
