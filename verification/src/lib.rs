//! Coordination logic for extracting the assets named in a manifest out of a
//! game archive: manifest decoding, work partitioning, the per-worker state
//! machine, output path mapping and progress accounting.

pub mod coordinator;
pub mod manifest;
pub mod output;
pub mod partition;
pub mod progress;
pub mod text;
pub mod trusted;
pub mod worker;
