//! Streaming statistics for sequencing reads: format sniffing, incremental
//! record extraction, and histogram construction.

pub mod format;
pub mod histogram;
pub mod label;
pub mod record;
pub mod stats;
pub mod text;
