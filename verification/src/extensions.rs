//! Extensions around the core collection operations.

pub mod parallel;
