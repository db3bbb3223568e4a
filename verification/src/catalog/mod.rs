//! The catalog of stored metadata: what is searched, listed and shown.

pub mod filing;
pub mod requests;
pub mod rows;
pub mod search;
