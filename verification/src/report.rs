//! The findings report: its document and its page.

pub mod model;
pub mod embedding;
pub mod render;
