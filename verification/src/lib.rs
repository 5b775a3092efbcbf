//! AWS diagnostic data acquisition and report rendering.

pub mod cluster;
pub mod cmd;
pub mod common;
pub mod glob;
pub mod hash;
pub mod json;
pub mod laws;
pub mod metrics;
pub mod order;
pub mod output;
pub mod path;
pub mod reading;
pub mod report;
pub mod text;
