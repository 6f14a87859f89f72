//! Utility types: errors, conversion helpers, decimal rendering.

pub mod async_support;
pub mod digits;
pub mod error;
pub mod type_conv;
