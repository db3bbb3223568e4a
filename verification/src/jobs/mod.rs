//! Fetch jobs: how they are admitted, claimed, retried and completed.

pub mod admission;
pub mod backfill;
pub mod claim;
pub mod hints;
pub mod model;
pub mod policy;
pub mod schedule;
pub mod stats;
pub mod status;
pub mod transactions;
pub mod transitions;
