//! The savings engine: group records, the round schedule, the per-group
//! ledger and the contract that hosts many groups.

pub mod validation;
pub mod contract;
pub mod fees;
pub mod laws;
pub mod ledger;
pub mod model;
pub mod proofs;
pub mod schedule;
pub mod types;
