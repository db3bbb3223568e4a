//! Collection logic of a BitTorrent DHT sniffer.

pub mod acceptance;
pub mod backpressure;
pub mod bencode;
pub mod bootstrap;
pub mod bounded;
pub mod catalog;
pub mod clock;
pub mod collector;
pub mod config;
pub mod diagnostics;
pub mod endpoint;
pub mod failure;
pub mod ingest;
pub mod inspection;
pub mod jobs;
pub mod logging;
pub mod metainfo;
pub mod order;
pub mod random;
pub mod reason;
pub mod roundtrip;
pub mod selector;
pub mod session;
pub mod sockets;
pub mod text;
