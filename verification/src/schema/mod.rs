//! Schemata of contract operations.
pub mod collections;
pub mod operations;
