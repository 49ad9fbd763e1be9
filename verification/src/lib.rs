//! The decision-making core of the Breez SDK bindings' logging layer.
//!
//! Log events carry their fields as text; this crate records those fields,
//! turns them into log messages, decides which logger an event belongs to,
//! and keeps the registry of per-node loggers that is keyed by the hex
//! encoding of each node's seed.
pub mod text;
pub mod text_map;
pub mod records;
pub mod routing;
pub mod log_stream;
