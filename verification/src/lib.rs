//! Append-only accounting of Cargo `target/` sweeps and the rebuilds they cost.
pub mod clock;
pub mod entry;
pub mod error;
pub mod laws;
pub mod lines;
pub mod paired;
pub mod path;
pub mod rank;
pub mod report;
pub mod rpc;
pub mod select;
pub mod stats;
pub mod text;
