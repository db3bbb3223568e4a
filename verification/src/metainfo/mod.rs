//! The info dictionary of a torrent: its fields, its files and the layouts that it promises.

pub mod analysis;
pub mod fields;
pub mod files;
pub mod hybrid;
pub mod identity;
pub mod laws;
pub mod layout;
pub mod lists;
pub mod meaning;
pub mod paths;
pub mod refusals;
pub mod trees;
