//! Validation of the history of a contract.
pub mod ancestry;
pub mod bundles;
pub mod closing;
pub mod commitments;
pub mod comparison;
pub mod completeness;
pub mod counting;
pub mod indexing;
pub mod laws;
pub mod lineage;
pub mod model;
pub mod reporting;
pub mod resolver;
pub mod soundness;
pub mod spending;
pub mod status;
pub mod steps;
pub mod terminals;
pub mod validator;
pub mod witness;
pub mod witnessing;
