//! Diagnostics in fixed dimensions: no address and no hash becomes a label.

pub mod aggregate;
pub mod attempts;
pub mod endpoints;
pub mod histogram;
pub mod keys;
pub mod metrics;
pub mod observation;
pub mod ordering;
pub mod snapshot;
pub mod table;
