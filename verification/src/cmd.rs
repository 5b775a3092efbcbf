//! The commands.

pub mod cache;
pub mod ec2;
pub mod logs;
pub mod metrics;
pub mod records;
pub mod report;
pub mod whoami;
