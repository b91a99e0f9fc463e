//! The add-ons that can be attached to a unit.

pub mod chain;
pub mod cleanup;
pub mod delay;
pub mod retry;
