//! Validation of client-side validated smart contracts: schemata of contract operations, and the
//! check of the history of a contract against its schema and against the transactions that
//! witness it.
pub mod contract;
pub mod ids;
pub mod index;
pub mod schema;
pub mod validation;
