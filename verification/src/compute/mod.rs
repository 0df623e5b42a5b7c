//! Compute drivers of the gateway.

pub mod vm;
