//! A session: what is told of its faults, how its tasks are supervised, and in what order it starts
//! and closes.

pub mod faults;
pub mod running;
pub mod shutdown;
pub mod snapshots;
pub mod startup;
pub mod supervision;
