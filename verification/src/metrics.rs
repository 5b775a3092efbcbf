//! Metric series and the timeline they share.

pub mod align;
