//! Verified core of a paginated catalog harvester.
//!
//! The library models catalog money, volume and percentage values as
//! fixed-point decimals, parses and formats them, decodes catalog pages,
//! derives per-item metrics, bounds the fan-out width, accumulates output
//! rows and renders the final delimited export. Network transport and file
//! output live outside the library and hand it plain values.

pub mod aggregator;
pub mod decimal;
pub mod export;
pub mod extract;
pub mod harvest;
pub mod limiter;
pub mod page;
pub mod parse;
